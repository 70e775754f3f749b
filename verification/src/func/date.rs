//! Date functions: `DATE`, `YEAR`, `MONTH`, `DAY`, `EDATE`, `EOMONTH`, `DAYS`, `DATEDIF`,
//! `WEEKDAY`, `TODAY`, `NOW`.
//!
//! Dates are Excel 1900-system serials with Excel's 1900 leap-year bug replicated: serial 1 is
//! 1900-01-01, serial 60 is the fictional 1900-02-29, and serial 61 is 1900-03-01. Calendar
//! arithmetic (month normalization, day counts) is the real proleptic-Gregorian calendar; the bug
//! lives only in the serial ↔ date mapping. The valid band is `[1, MAX_SERIAL]`
//! (1900-01-01 … 9999-12-31).

use vstd::prelude::*;
use crate::eval::{lemma_restored_same, less_than, restored, EvalCtx};
use crate::value::Order;
use crate::expr::{args_size, lemma_arg_size, Expr, Resolver};
use crate::func::helpers::{one_num_read, arg_text, finite_or_num, lit_arg, lit_num, num_read, one_num, room, spec_finite_or_num, text_read, text_res};
use crate::strings::{eq_ignore_case, lower_seq};
use crate::value::{ErrKind, Number, Value};

verus! {

/// The Unix day number (days since 1970-01-01) of 1899-12-31, the day before serial 1.
pub const EPOCH_1899_12_31: i64 = -25568;

/// The largest valid date serial: 9999-12-31.
pub const MAX_SERIAL: i64 = 2958465;

/// The widest magnitude a `DATE`/`EDATE` integer argument may have.
pub const DATE_ARG_LIMIT: i64 = 1_000_000_000_000_000;

/// Whether `y` is a proleptic-Gregorian leap year.
pub open spec fn spec_is_leap(y: int) -> bool {
    (y % 4 == 0 && y % 100 != 0) || y % 400 == 0
}

/// The number of days in month `m` (1-based) of year `y`.
pub open spec fn spec_days_in_month(y: int, m: int) -> int {
    if m == 2 {
        if spec_is_leap(y) { 29 } else { 28 }
    } else if m == 4 || m == 6 || m == 9 || m == 11 {
        30
    } else {
        31
    }
}

/// Days from 0000-03-01 to the first of March of the March-based year `yy`: 365 a year plus the
/// Gregorian leap days.
pub open spec fn days_before_march_year(yy: int) -> int {
    365 * yy + yy / 4 - yy / 100 + yy / 400
}

/// The day offset of `(m, d)` within its March-based year (March 1st is 0).
pub open spec fn march_day_of_year(m: int, d: int) -> int {
    let mp = if m > 2 { m - 3 } else { m + 9 };
    (153 * mp + 2) / 5 + d - 1
}

/// The Unix day number of a proleptic-Gregorian `(year, month, day)`. Linear in `d`, so an
/// out-of-range day rolls into the neighbouring months.
pub open spec fn spec_days_from_civil(y: int, m: int, d: int) -> int {
    let yy = if m <= 2 { y - 1 } else { y };
    days_before_march_year(yy) + march_day_of_year(m, d) - 719468
}

/// The Unix day number of January 1st of `y`.
pub open spec fn jan1(y: int) -> int {
    spec_days_from_civil(y, 1, 1)
}

/// The 1900-system serial of a civil date: its day count from 1899-12-31, plus one from
/// 1900-03-01 on (the phantom 1900-02-29 sits in the count).
pub open spec fn spec_serial_from_ymd(y: int, m: int, d: int) -> int {
    let unix = spec_days_from_civil(y, m, d);
    if unix >= spec_days_from_civil(1900, 3, 1) {
        unix - EPOCH_1899_12_31 + 1
    } else {
        unix - EPOCH_1899_12_31
    }
}

/// A real calendar date in the serial band's years.
pub open spec fn valid_date(y: int, m: int, d: int) -> bool {
    1900 <= y <= 9999 && 1 <= m <= 12 && 1 <= d <= spec_days_in_month(y, m)
}

/// The date a serial in the valid band names: the phantom `(1900, 2, 29)` for serial 60, otherwise
/// the one valid date with that serial.
pub open spec fn spec_ymd(s: int) -> (int, int, int) {
    if s == 60 {
        (1900, 2, 29)
    } else {
        choose|t: (int, int, int)| valid_date(t.0, t.1, t.2) && spec_serial_from_ymd(t.0, t.1, t.2) == s
    }
}

/// Days before month `m` in a January-based year `y`.
pub open spec fn cum_days(y: int, m: int) -> int {
    let leap = if spec_is_leap(y) { 1int } else { 0int };
    if m == 1 {
        0
    } else if m == 2 {
        31
    } else {
        59 + leap + (153 * (m - 3) + 2) / 5
    }
}

/// One March-based year is 365 days plus a leap day when the following February has 29 days.
#[verifier::spinoff_prover]
proof fn lemma_year_step(y: int)
    ensures
        days_before_march_year(y) - days_before_march_year(y - 1) == 365 + (if spec_is_leap(y) { 1int } else { 0int }),
{
}

/// A date's day number is January 1st of its year plus the days before its month plus its day.
proof fn lemma_day_of_year(y: int, m: int, d: int)
    requires
        1 <= m <= 12,
    ensures
        spec_days_from_civil(y, m, d) == jan1(y) + cum_days(y, m) + d - 1,
{
    lemma_year_step(y);
}

/// Consecutive years' January 1sts are a year apart.
proof fn lemma_jan1_step(y: int)
    ensures
        jan1(y + 1) == jan1(y) + 365 + (if spec_is_leap(y) { 1int } else { 0int }),
{
    lemma_year_step(y);
}

/// Each month starts where the previous one ends, and December ends the year.
proof fn lemma_month_len(y: int, m: int)
    requires
        1 <= m <= 12,
    ensures
        m < 12 ==> cum_days(y, m + 1) == cum_days(y, m) + spec_days_in_month(y, m),
        m == 12 ==> jan1(y + 1) == jan1(y) + cum_days(y, 12) + 31,
{
    lemma_jan1_step(y);
}

/// January 1sts grow by 365 or 366 days a year.
proof fn lemma_jan1_bounds(a: int, b: int)
    requires
        a <= b,
    ensures
        jan1(a) + 365 * (b - a) <= jan1(b) <= jan1(a) + 366 * (b - a),
    decreases b - a,
{
    if a < b {
        lemma_jan1_bounds(a, b - 1);
        lemma_jan1_step(b - 1);
    }
}

/// A valid date lies in its own year: on or after its January 1st and before the next one.
proof fn lemma_date_in_year(y: int, m: int, d: int)
    requires
        1 <= m <= 12,
        1 <= d <= spec_days_in_month(y, m),
    ensures
        jan1(y) <= spec_days_from_civil(y, m, d) < jan1(y + 1),
        spec_days_from_civil(y, m, 1) <= spec_days_from_civil(y, m, d),
        m < 12 ==> spec_days_from_civil(y, m, d) < spec_days_from_civil(y, m + 1, 1),
{
    lemma_day_of_year(y, m, d);
    lemma_day_of_year(y, m, 1);
    lemma_jan1_step(y);
    if m < 12 {
        lemma_day_of_year(y, m + 1, 1);
        lemma_month_len(y, m);
    }
}

/// Months of one year start in increasing order.
proof fn lemma_month_order(y: int, a: int, b: int)
    requires
        1 <= a <= b <= 12,
    ensures
        cum_days(y, a) + (b - a) * 28 <= cum_days(y, b),
    decreases b - a,
{
    if a < b {
        lemma_month_order(y, a, b - 1);
        lemma_month_len(y, b - 1);
    }
}

/// Distinct valid dates have distinct day numbers.
proof fn lemma_days_injective(y1: int, m1: int, d1: int, y2: int, m2: int, d2: int)
    requires
        valid_date(y1, m1, d1),
        valid_date(y2, m2, d2),
        spec_days_from_civil(y1, m1, d1) == spec_days_from_civil(y2, m2, d2),
    ensures
        y1 == y2 && m1 == m2 && d1 == d2,
{
    lemma_date_in_year(y1, m1, d1);
    lemma_date_in_year(y2, m2, d2);
    if y1 < y2 {
        lemma_jan1_bounds(y1 + 1, y2);
    } else if y2 < y1 {
        lemma_jan1_bounds(y2 + 1, y1);
    }
    assert(y1 == y2);
    lemma_day_of_year(y1, m1, d1);
    lemma_day_of_year(y2, m2, d2);
    if m1 < m2 {
        lemma_month_order(y1, m1 + 1, m2);
        lemma_month_len(y1, m1);
    } else if m2 < m1 {
        lemma_month_order(y1, m2 + 1, m1);
        lemma_month_len(y1, m2);
    }
}

/// The serial round trip: every valid date has a serial in the valid band other than the phantom
/// 60, and no other valid date shares it — so [`serial_to_ymd`] of a date's serial is that date.
pub proof fn law_serial_roundtrip(y: int, m: int, d: int)
    requires
        valid_date(y, m, d),
    ensures
        1 <= spec_serial_from_ymd(y, m, d) <= MAX_SERIAL,
        spec_serial_from_ymd(y, m, d) != 60,
        spec_ymd(spec_serial_from_ymd(y, m, d)) == (y, m, d),
{
    lemma_date_in_year(y, m, d);
    lemma_jan1_bounds(1900, y);
    lemma_jan1_bounds(y + 1, 10000);
    assert(jan1(1900) == EPOCH_1899_12_31 + 1);
    assert(jan1(10000) == EPOCH_1899_12_31 + MAX_SERIAL);
    assert(spec_days_from_civil(1900, 3, 1) == EPOCH_1899_12_31 + 60);
    let s = spec_serial_from_ymd(y, m, d);
    let t = (y, m, d);
    assert(valid_date(t.0, t.1, t.2) && spec_serial_from_ymd(t.0, t.1, t.2) == s);
    let c = choose|t: (int, int, int)| valid_date(t.0, t.1, t.2) && spec_serial_from_ymd(t.0, t.1, t.2) == s;
    lemma_serial_days(c.0, c.1, c.2);
    lemma_serial_days(y, m, d);
    lemma_days_injective(c.0, c.1, c.2, y, m, d);
}

/// On valid dates the serial and the day number determine each other.
proof fn lemma_serial_days(y: int, m: int, d: int)
    requires
        valid_date(y, m, d),
    ensures
        spec_days_from_civil(y, m, d) == if spec_serial_from_ymd(y, m, d) > 60 {
            spec_serial_from_ymd(y, m, d) + EPOCH_1899_12_31 - 1
        } else {
            spec_serial_from_ymd(y, m, d) + EPOCH_1899_12_31
        },
{
    assert(spec_days_from_civil(1900, 3, 1) == EPOCH_1899_12_31 + 60);
}

/// Whether `y` is a proleptic-Gregorian leap year.
pub fn is_leap(y: i64) -> (r: bool)
    requires
        0 <= y <= 10000,
    ensures
        r == spec_is_leap(y as int),
{
    (y % 4 == 0 && y % 100 != 0) || y % 400 == 0
}

/// The number of days in month `m` (1-based) of year `y`.
pub fn days_in_month(y: i64, m: u32) -> (r: u32)
    requires
        0 <= y <= 10000,
        1 <= m <= 12,
    ensures
        r == spec_days_in_month(y as int, m as int),
{
    if m == 2 {
        if is_leap(y) { 29 } else { 28 }
    } else if m == 4 || m == 6 || m == 9 || m == 11 {
        30
    } else {
        31
    }
}

/// The Unix day number of a proleptic-Gregorian `(year, month, day)` — exact integer arithmetic.
pub fn days_from_civil(y: i64, m: i64, d: i64) -> (r: i64)
    requires
        0 <= y <= 10000,
        1 <= m <= 12,
        -DATE_ARG_LIMIT <= d <= DATE_ARG_LIMIT,
    ensures
        r == spec_days_from_civil(y as int, m as int, d as int),
{
    let yy: i64 = if m <= 2 { y - 1 } else { y };
    // Shift by one 400-year cycle so every division is of a non-negative number.
    let shifted: u64 = (yy + 400) as u64;
    let q4: i64 = (shifted / 4) as i64 - 100;
    let q100: i64 = (shifted / 100) as i64 - 4;
    let q400: i64 = (shifted / 400) as i64 - 1;
    assert(q4 == yy / 4 && q100 == yy / 100 && q400 == yy / 400) by {
        assert((yy + 400) / 4 == yy / 4 + 100);
        assert((yy + 400) / 100 == yy / 100 + 4);
        assert((yy + 400) / 400 == yy / 400 + 1);
    }
    let mp: u64 = if m > 2 { (m - 3) as u64 } else { (m + 9) as u64 };
    let doy: i64 = ((153 * mp + 2) / 5) as i64 + d - 1;
    365 * yy + q4 - q100 + q400 + doy - 719468
}

/// The 1900-system serial of a civil date, replicating Excel's leap-year bug (a date on or after
/// 1900-03-01 is shifted one day). May fall outside the valid band; callers gate the range.
pub fn serial_from_ymd(y: i64, m: u32, d: i64) -> (r: i64)
    requires
        0 <= y <= 10000,
        1 <= m <= 12,
        -DATE_ARG_LIMIT <= d <= DATE_ARG_LIMIT,
    ensures
        r == spec_serial_from_ymd(y as int, m as int, d as int),
{
    let unix = days_from_civil(y, m as i64, d);
    let threshold = days_from_civil(1900, 3, 1);
    if unix >= threshold {
        unix - EPOCH_1899_12_31 + 1
    } else {
        unix - EPOCH_1899_12_31
    }
}

/// The `(year, month, day)` of a serial in the valid band; serial 60 is the phantom 1900-02-29.
pub fn serial_to_ymd(s: i64) -> (r: (i64, u32, u32))
    requires
        1 <= s <= MAX_SERIAL,
    ensures
        (r.0 as int, r.1 as int, r.2 as int) == spec_ymd(s as int),
        s != 60 ==> valid_date(r.0 as int, r.1 as int, r.2 as int),
        s != 60 ==> spec_serial_from_ymd(r.0 as int, r.1 as int, r.2 as int) == s,
{
    if s == 60 {
        return (1900, 2, 29);
    }
    let unix: i64 = if s < 60 { EPOCH_1899_12_31 + s } else { EPOCH_1899_12_31 + s - 1 };
    proof {
        assert(jan1(1900) == EPOCH_1899_12_31 + 1);
        assert(jan1(10000) == EPOCH_1899_12_31 + MAX_SERIAL);
    }
    // No year is longer than 366 days, so this estimate never overshoots.
    let base: i64 = unix - (EPOCH_1899_12_31 + 1);
    let mut y: i64 = 1900 + base / 366;
    proof {
        lemma_jan1_bounds(1900, y as int);
        lemma_jan1_bounds(y as int, 10000);
    }
    while days_from_civil(y + 1, 1, 1) <= unix
        invariant
            1900 <= y <= 9999,
            jan1(y as int) <= unix < jan1(10000),
            unix == if s < 60 { EPOCH_1899_12_31 + s } else { EPOCH_1899_12_31 + s - 1 },
        decreases 10000 - y,
    {
        y = y + 1;
        if y == 10000 {
            assert(false);
        }
    }
    let mut m: u32 = 1;
    while m < 12 && days_from_civil(y, (m + 1) as i64, 1) <= unix
        invariant
            1900 <= y <= 9999,
            1 <= m <= 12,
            spec_days_from_civil(y as int, m as int, 1) <= unix < jan1(y + 1),
        decreases 12 - m,
    {
        m = m + 1;
    }
    let first = days_from_civil(y, m as i64, 1);
    let d: i64 = unix - first + 1;
    proof {
        lemma_day_of_year(y as int, m as int, 1);
        lemma_day_of_year(y as int, m as int, d as int);
        lemma_month_len(y as int, m as int);
        if m < 12 {
            lemma_day_of_year(y as int, m + 1, 1);
        }
        lemma_serial_days(y as int, m as int, d as int);
        assert(spec_days_from_civil(1900, 3, 1) == EPOCH_1899_12_31 + 60);
        let t = (y as int, m as int, d as int);
        assert(valid_date(t.0, t.1, t.2) && spec_serial_from_ymd(t.0, t.1, t.2) == s);
        law_serial_roundtrip(y as int, m as int, d as int);
    }
    (y, m, d as u32)
}

/// The calendar month a year and a (possibly out-of-range) month normalize to: `(y, m)` with
/// `m` in `1..=12`, as the month count `y·12 + (m − 1)` reads.
pub open spec fn spec_norm_month(total: int) -> (int, int) {
    (total / 12, total % 12 + 1)
}

/// Split a month count into its year and 1-based month (floor division, so negative counts work).
pub fn norm_month(total: i64) -> (r: (i64, u32))
    requires
        -4 * DATE_ARG_LIMIT <= total <= 4 * DATE_ARG_LIMIT,
    ensures
        (r.0 as int, r.1 as int) == spec_norm_month(total as int),
{
    let shift: i64 = 48 * DATE_ARG_LIMIT;
    let t: u64 = (total + shift) as u64;
    let y: i64 = (t / 12) as i64 - shift / 12;
    let m: u32 = (t % 12) as u32 + 1;
    assert(((total + shift) / 12) as int == total / 12 + shift / 12 && (total + shift) % 12 == total % 12) by {
        assert(shift % 12 == 0);
    }
    (y, m)
}

/// The `DATE` serial of a year, month and day already truncated to integers: a year in
/// `0..=1899` folds by +1900; the month and day roll over; a year outside `0..=9999` (before or
/// after the month roll-over) or a serial outside the band is `#NUM!`.
pub open spec fn spec_date_serial(y: int, m: int, d: int) -> Result<int, ErrKind> {
    let year = if 0 <= y <= 1899 { y + 1900 } else { y };
    if !(0 <= year <= 9999) {
        Err(ErrKind::Num)
    } else {
        let (ny, nm) = spec_norm_month(year * 12 + (m - 1));
        if !(0 <= ny <= 9999) {
            Err(ErrKind::Num)
        } else {
            let serial = spec_serial_from_ymd(ny, nm, 1) + (d - 1);
            if 1 <= serial <= MAX_SERIAL { Ok(serial) } else { Err(ErrKind::Num) }
        }
    }
}

/// Compute a `DATE` serial (see [`spec_date_serial`]).
pub fn date_serial(y: i64, m: i64, d: i64) -> (r: Result<i64, ErrKind>)
    requires
        -DATE_ARG_LIMIT <= y <= DATE_ARG_LIMIT,
        -DATE_ARG_LIMIT <= m <= DATE_ARG_LIMIT,
        -DATE_ARG_LIMIT <= d <= DATE_ARG_LIMIT,
    ensures
        match r {
            Ok(v) => spec_date_serial(y as int, m as int, d as int) == Ok::<int, ErrKind>(v as int),
            Err(k) => spec_date_serial(y as int, m as int, d as int) == Err::<int, ErrKind>(k),
        },
{
    let year = if 0 <= y && y <= 1899 { y + 1900 } else { y };
    if !(0 <= year && year <= 9999) {
        return Err(ErrKind::Num);
    }
    let (ny, nm) = norm_month(year * 12 + (m - 1));
    if !(0 <= ny && ny <= 9999) {
        return Err(ErrKind::Num);
    }
    let serial = serial_from_ymd(ny, nm, 1) + (d - 1);
    if 1 <= serial && serial <= MAX_SERIAL {
        Ok(serial)
    } else {
        Err(ErrKind::Num)
    }
}

/// The serial `months` months from the date serial `start`: the same day of month clamped to the
/// target month's length (`end_of_month` takes the target month's last day instead); a target year
/// outside `0..=9999` or a serial outside the band is `#NUM!`.
pub open spec fn spec_shift_months(start: int, months: int, end_of_month: bool) -> Result<int, ErrKind> {
    let (y, m, d) = spec_ymd(start);
    let (ny, nm) = spec_norm_month(y * 12 + (m - 1) + months);
    if !(0 <= ny <= 9999) {
        Err(ErrKind::Num)
    } else {
        let last = spec_days_in_month(ny, nm);
        let nd = if end_of_month || d > last { last } else { d };
        let serial = spec_serial_from_ymd(ny, nm, nd);
        if 1 <= serial <= MAX_SERIAL { Ok(serial) } else { Err(ErrKind::Num) }
    }
}

/// Shift a date serial by whole months (see [`spec_shift_months`]).
pub fn shift_months(start: i64, months: i64, end_of_month: bool) -> (r: Result<i64, ErrKind>)
    requires
        1 <= start <= MAX_SERIAL,
        -DATE_ARG_LIMIT <= months <= DATE_ARG_LIMIT,
    ensures
        match r {
            Ok(v) => spec_shift_months(start as int, months as int, end_of_month) == Ok::<int, ErrKind>(v as int),
            Err(k) => spec_shift_months(start as int, months as int, end_of_month) == Err::<int, ErrKind>(k),
        },
{
    let (y, m, d) = serial_to_ymd(start);
    let (ny, nm) = norm_month(y * 12 + (m as i64 - 1) + months);
    if !(0 <= ny && ny <= 9999) {
        return Err(ErrKind::Num);
    }
    let last = days_in_month(ny, nm);
    let nd = if end_of_month || d > last { last } else { d };
    let serial = serial_from_ymd(ny, nm, nd as i64);
    if 1 <= serial && serial <= MAX_SERIAL {
        Ok(serial)
    } else {
        Err(ErrKind::Num)
    }
}

/// A `DATEDIF` unit.
#[derive(Clone, Copy, Debug, PartialEq, Eq, Structural)]
pub enum DateUnit {
    /// `"D"`: days.
    Days,
    /// `"M"`: complete months.
    Months,
    /// `"Y"`: complete years.
    Years,
    /// `"MD"`: days, ignoring months and years.
    DaysNoMonths,
    /// `"YM"`: months, ignoring years.
    MonthsNoYears,
    /// `"YD"`: days, ignoring years.
    DaysNoYears,
}

/// The unit a `DATEDIF` unit text names, ignoring ASCII case.
pub open spec fn spec_date_unit(t: Seq<char>) -> Option<DateUnit> {
    if lower_seq(t) == lower_seq("D"@) {
        Some(DateUnit::Days)
    } else if lower_seq(t) == lower_seq("M"@) {
        Some(DateUnit::Months)
    } else if lower_seq(t) == lower_seq("Y"@) {
        Some(DateUnit::Years)
    } else if lower_seq(t) == lower_seq("MD"@) {
        Some(DateUnit::DaysNoMonths)
    } else if lower_seq(t) == lower_seq("YM"@) {
        Some(DateUnit::MonthsNoYears)
    } else if lower_seq(t) == lower_seq("YD"@) {
        Some(DateUnit::DaysNoYears)
    } else {
        None
    }
}

/// Read a `DATEDIF` unit text.
pub fn date_unit(t: &str) -> (r: Option<DateUnit>)
    ensures
        r == spec_date_unit(t@),
{
    if eq_ignore_case(t, "D") {
        Some(DateUnit::Days)
    } else if eq_ignore_case(t, "M") {
        Some(DateUnit::Months)
    } else if eq_ignore_case(t, "Y") {
        Some(DateUnit::Years)
    } else if eq_ignore_case(t, "MD") {
        Some(DateUnit::DaysNoMonths)
    } else if eq_ignore_case(t, "YM") {
        Some(DateUnit::MonthsNoYears)
    } else if eq_ignore_case(t, "YD") {
        Some(DateUnit::DaysNoYears)
    } else {
        None
    }
}

/// The elapsed time between two serials `s <= e` in a `DATEDIF` unit.
pub open spec fn spec_datedif(s: int, e: int, unit: DateUnit) -> int {
    datedif_of(unit, s, e, spec_ymd(s), spec_ymd(e))
}

/// The elapsed time in a `DATEDIF` unit between serials `s` and `e` whose dates are `a` and `b`.
pub open spec fn datedif_of(unit: DateUnit, s: int, e: int, a: (int, int, int), b: (int, int, int)) -> int {
    let (y1, m1, d1) = a;
    let (y2, m2, d2) = b;
    match unit {
        DateUnit::Days => e - s,
        DateUnit::Years => if m2 < m1 || (m2 == m1 && d2 < d1) { y2 - y1 - 1 } else { y2 - y1 },
        DateUnit::Months => (y2 - y1) * 12 + (m2 - m1) - (if d2 < d1 { 1int } else { 0int }),
        DateUnit::DaysNoMonths => if d2 >= d1 {
            d2 - d1
        } else if m2 == 1 {
            spec_days_in_month(y2 - 1, 12) - d1 + d2
        } else {
            spec_days_in_month(y2, m2 - 1) - d1 + d2
        },
        DateUnit::MonthsNoYears => ((m2 - m1) - (if d2 < d1 { 1int } else { 0int })) % 12,
        DateUnit::DaysNoYears => if m2 > m1 || (m2 == m1 && d2 >= d1) {
            spec_serial_from_ymd(y1, m2, d2) - spec_serial_from_ymd(y1, m1, d1)
        } else {
            spec_serial_from_ymd(y1 + 1, m2, d2) - spec_serial_from_ymd(y1, m1, d1)
        },
    }
}

/// The `DATEDIF` arithmetic on two dates in the band's years (see [`datedif_of`]).
fn datedif_dates(unit: DateUnit, s: i64, e: i64, y1: i64, m1: u32, d1: u32, y2: i64, m2: u32, d2: u32) -> (r: i64)
    requires
        1 <= s <= MAX_SERIAL,
        1 <= e <= MAX_SERIAL,
        1900 <= y1 <= 9999 && 1 <= m1 <= 12 && 1 <= d1 <= 31,
        1900 <= y2 <= 9999 && 1 <= m2 <= 12 && 1 <= d2 <= 31,
    ensures
        r == datedif_of(unit, s as int, e as int, (y1 as int, m1 as int, d1 as int), (y2 as int, m2 as int, d2 as int)),
{
    match unit {
        DateUnit::Days => e - s,
        DateUnit::Years => {
            if m2 < m1 || (m2 == m1 && d2 < d1) {
                y2 - y1 - 1
            } else {
                y2 - y1
            }
        },
        DateUnit::Months => {
            let mo = (y2 - y1) * 12 + (m2 as i64 - m1 as i64);
            if d2 < d1 { mo - 1 } else { mo }
        },
        DateUnit::DaysNoMonths => days_no_months(y2, m2, d1, d2),
        DateUnit::MonthsNoYears => {
            let mo = m2 as i64 - m1 as i64;
            let mo = if d2 < d1 { mo - 1 } else { mo };
            if mo < 0 { mo + 12 } else { mo }
        },
        DateUnit::DaysNoYears => days_no_years(y1, m1, d1, m2, d2),
    }
}

/// `DATEDIF` `"MD"`: the day gap, borrowing the previous month's length when the end day is
/// before the start day.
fn days_no_months(y2: i64, m2: u32, d1: u32, d2: u32) -> (r: i64)
    requires
        1900 <= y2 <= 9999 && 1 <= m2 <= 12 && 1 <= d1 <= 31 && 1 <= d2 <= 31,
    ensures
        r == (if d2 >= d1 {
            d2 - d1
        } else if m2 == 1 {
            spec_days_in_month(y2 - 1, 12) - d1 + d2
        } else {
            spec_days_in_month(y2 as int, m2 - 1) - d1 + d2
        }),
{
    if d2 >= d1 {
        (d2 - d1) as i64
    } else if m2 == 1 {
        days_in_month(y2 - 1, 12) as i64 - d1 as i64 + d2 as i64
    } else {
        days_in_month(y2, m2 - 1) as i64 - d1 as i64 + d2 as i64
    }
}

/// `DATEDIF` `"YD"`: the end's month and day re-homed into the start's year (or the next one when
/// they fall before the start's) less the start.
fn days_no_years(y1: i64, m1: u32, d1: u32, m2: u32, d2: u32) -> (r: i64)
    requires
        1900 <= y1 <= 9999 && 1 <= m1 <= 12 && 1 <= d1 <= 31 && 1 <= m2 <= 12 && 1 <= d2 <= 31,
    ensures
        r == (if m2 > m1 || (m2 == m1 && d2 >= d1) {
            spec_serial_from_ymd(y1 as int, m2 as int, d2 as int) - spec_serial_from_ymd(y1 as int, m1 as int, d1 as int)
        } else {
            spec_serial_from_ymd(y1 + 1, m2 as int, d2 as int) - spec_serial_from_ymd(y1 as int, m1 as int, d1 as int)
        }),
{
    let start = serial_from_ymd(y1, m1, d1 as i64);
    let target_year = if m2 > m1 || (m2 == m1 && d2 >= d1) { y1 } else { y1 + 1 };
    let end = serial_from_ymd(target_year, m2, d2 as i64);
    proof {
        lemma_serial_bounds(y1 as int, m1 as int, d1 as int);
        lemma_serial_bounds(target_year as int, m2 as int, d2 as int);
    }
    end - start
}

/// Serials of dates in years `0..=10000` with day `1..=31` are small.
proof fn lemma_serial_bounds(y: int, m: int, d: int)
    requires
        0 <= y <= 10000 && 1 <= m <= 12 && 1 <= d <= 31,
    ensures
        -1000000 <= spec_serial_from_ymd(y, m, d) <= 4000000,
{
    lemma_day_of_year(y, m, d);
    lemma_jan1_bounds(0, y);
    lemma_jan1_bounds(y, 10001);
}

/// `DATEDIF` on two serials in the band and a unit text: a start after the end, or an unknown
/// unit, is `#NUM!`.
pub fn datedif_value(s: i64, e: i64, unit: &str) -> (r: Result<i64, ErrKind>)
    requires
        1 <= s <= MAX_SERIAL,
        1 <= e <= MAX_SERIAL,
    ensures
        s > e ==> r == Err::<i64, ErrKind>(ErrKind::Num),
        s <= e && spec_date_unit(unit@) is None ==> r == Err::<i64, ErrKind>(ErrKind::Num),
        s <= e && spec_date_unit(unit@) is Some ==> r == Ok::<i64, ErrKind>(
            spec_datedif(s as int, e as int, spec_date_unit(unit@)->0) as i64),
{
    if s > e {
        return Err(ErrKind::Num);
    }
    let u = match date_unit(unit) {
        Some(u) => u,
        None => {
            return Err(ErrKind::Num);
        },
    };
    let (y1, m1, d1) = serial_to_ymd(s);
    let (y2, m2, d2) = serial_to_ymd(e);
    proof {
        if s == 60 {
            assert(spec_ymd(60) == (1900int, 2int, 29int));
        }
        if e == 60 {
            assert(spec_ymd(60) == (1900int, 2int, 29int));
        }
    }
    Ok(datedif_dates(u, s, e, y1, m1, d1, y2, m2, d2))
}

/// The day of week of a serial, 1 = Sunday … 7 = Saturday (serial 1 is a Sunday; the count runs in
/// the contiguous serial space, so the phantom leap day rides along).
pub open spec fn spec_weekday_sun1(s: int) -> int {
    (s - 1) % 7 + 1
}

/// The `WEEKDAY` number of a serial under a return type: 1 Sun=1…Sat=7; 2 and 11 Mon=1…Sun=7;
/// 3 Mon=0…Sun=6; 12…17 weeks starting Tue…Sun numbered 1…7. Any other type is `None`.
pub open spec fn spec_weekday(s: int, rtype: int) -> Option<int> {
    let wd = spec_weekday_sun1(s);
    if rtype == 1 {
        Some(wd)
    } else if rtype == 2 {
        Some((wd - 2) % 7 + 1)
    } else if rtype == 3 {
        Some((wd - 2) % 7)
    } else if 11 <= rtype <= 17 {
        let start = if rtype == 17 { 1 } else { rtype - 9 };
        Some((wd - start) % 7 + 1)
    } else {
        None
    }
}

/// Compute a `WEEKDAY` number (see [`spec_weekday`]).
pub fn weekday_value(s: i64, rtype: i64) -> (r: Option<i64>)
    requires
        1 <= s <= MAX_SERIAL,
    ensures
        match r {
            Some(v) => spec_weekday(s as int, rtype as int) == Some(v as int),
            None => spec_weekday(s as int, rtype as int) is None,
        },
{
    let wd: i64 = (s - 1) % 7 + 1;
    if rtype == 1 {
        Some(wd)
    } else if rtype == 2 {
        Some((wd + 5) % 7 + 1)
    } else if rtype == 3 {
        Some((wd + 5) % 7)
    } else if 11 <= rtype && rtype <= 17 {
        let start: i64 = if rtype == 17 { 1 } else { rtype - 9 };
        Some((wd - start + 7) % 7 + 1)
    } else {
        None
    }
}

/// A `DATE`/`EDATE` integer argument from its number: truncated toward zero; a magnitude above
/// `1e15` is `#NUM!`.
pub open spec fn spec_date_int<N: Number>(x: N) -> Result<i64, ErrKind> {
    let n = x.spec_trunc_of();
    let t = n.spec_trunc_int();
    if N::spec_from_int(DATE_ARG_LIMIT).spec_order(n.spec_magnitude()) == Some(Order::Less) || t < -DATE_ARG_LIMIT || t > DATE_ARG_LIMIT {
        Err(ErrKind::Num)
    } else {
        Ok(t)
    }
}

/// A serial argument from its number: floored to the day; outside `[1, MAX_SERIAL]` is `#NUM!`.
/// The date serial a coerced argument gives: its error, or [`spec_serial_arg`].
pub open spec fn serial_of<N: Number>(c: Result<N, ErrKind>) -> Result<i64, ErrKind> {
    match c {
        Err(k) => Err(k),
        Ok(x) => spec_serial_arg(x),
    }
}

pub open spec fn spec_serial_arg<N: Number>(x: N) -> Result<i64, ErrKind> {
    let n = x.spec_floor_of();
    let t = n.spec_floor_int();
    if n.spec_order(N::spec_from_int(1)) == Some(Order::Less) || N::spec_from_int(MAX_SERIAL).spec_order(n) == Some(Order::Less)
        || !n.spec_finite() || t < 1 || t > MAX_SERIAL {
        Err(ErrKind::Num)
    } else {
        Ok(t)
    }
}

/// A day count or serial as a value.
pub open spec fn int_value<N: Number>(r: Result<int, ErrKind>) -> Value<N> {
    match r {
        Ok(v) => Value::Number(N::spec_from_int(v as i64)),
        Err(k) => Value::Error(k),
    }
}

/// What `DATE` gives for three numbers.
pub open spec fn spec_date_fn<N: Number>(x: N, y: N, z: N) -> Value<N> {
    match (spec_date_int(x), spec_date_int(y), spec_date_int(z)) {
        (Err(k), _, _) => Value::Error(k),
        (Ok(_), Err(k), _) => Value::Error(k),
        (Ok(_), Ok(_), Err(k)) => Value::Error(k),
        (Ok(a), Ok(b), Ok(c)) => int_value(spec_date_serial(a as int, b as int, c as int)),
    }
}

/// What `YEAR`/`MONTH`/`DAY` give for a number.
pub open spec fn spec_part_fn<N: Number>(x: N, part: DatePart) -> Value<N> {
    match spec_serial_arg(x) {
        Err(k) => Value::Error(k),
        Ok(s) => Value::Number(N::spec_from_int(match part {
            DatePart::Year => spec_ymd(s as int).0,
            DatePart::Month => spec_ymd(s as int).1,
            DatePart::Day => spec_ymd(s as int).2,
        } as i64)),
    }
}

/// What `EDATE` / `EOMONTH` give for two numbers.
pub open spec fn spec_month_shift_fn<N: Number>(x: N, y: N, end_of_month: bool) -> Value<N> {
    match (spec_serial_arg(x), spec_date_int(y)) {
        (Err(k), _) => Value::Error(k),
        (Ok(_), Err(k)) => Value::Error(k),
        (Ok(s), Ok(m)) => int_value(spec_shift_months(s as int, m as int, end_of_month)),
    }
}

/// What `DAYS` gives for two numbers.
pub open spec fn spec_days_fn<N: Number>(x: N, y: N) -> Value<N> {
    match (spec_serial_arg(x), spec_serial_arg(y)) {
        (Err(k), _) => Value::Error(k),
        (Ok(_), Err(k)) => Value::Error(k),
        (Ok(e), Ok(s)) => Value::Number(N::spec_from_int((e - s) as i64)),
    }
}

/// Evaluate a `DATE`/`EDATE` integer argument: truncated toward zero; a magnitude above `1e15` is
/// `#NUM!`.
pub fn date_int_arg<N: Number, R: Resolver<N>>(ctx: &mut EvalCtx<R>, e: &Expr<N>) -> (r: Result<i64, ErrKind>)
    ensures
        restored(*old(ctx), *final(ctx)),
        r matches Ok(v) ==> -DATE_ARG_LIMIT <= v <= DATE_ARG_LIMIT,
        room(*old(ctx)) ==> (lit_num(*e) matches Some(x) ==> r == spec_date_int(x)),
    decreases crate::expr::expr_size(*e), 4nat,
{
    let n = one_num(ctx, e)?.trunc_of();
    if less_than(N::from_int(DATE_ARG_LIMIT), n.magnitude()) {
        return Err(ErrKind::Num);
    }
    // A number within the limit truncates to an integer within it.
    let t = n.trunc_int();
    if t < -DATE_ARG_LIMIT || t > DATE_ARG_LIMIT {
        return Err(ErrKind::Num);
    }
    Ok(t)
}

/// Evaluate a serial argument: floored to the day; a serial outside `[1, MAX_SERIAL]` is `#NUM!`.
pub fn date_serial_arg<N: Number, R: Resolver<N>>(ctx: &mut EvalCtx<R>, e: &Expr<N>) -> (r: Result<i64, ErrKind>)
    ensures
        restored(*old(ctx), *final(ctx)),
        r matches Ok(v) ==> 1 <= v <= MAX_SERIAL,
        room(*old(ctx)) ==> (lit_num(*e) matches Some(x) ==> r == spec_serial_arg(x)),
        exists|c: Result<N, ErrKind>| #[trigger] num_read(*old(ctx), *e, c) && r == serial_of(c),
    decreases crate::expr::expr_size(*e), 4nat,
{
    let rc = one_num(ctx, e);
    proof {
        assert(num_read(*old(ctx), *e, rc));
    }
    let n = match rc {
        Ok(x) => x,
        Err(k) => {
            return Err(k);
        },
    }.floor_of();
    if less_than(n, N::from_int(1)) || less_than(N::from_int(MAX_SERIAL), n) || !n.finite() {
        return Err(ErrKind::Num);
    }
    // A finite number within the band floors to an integer within it.
    let t = n.floor_int();
    if t < 1 || t > MAX_SERIAL {
        return Err(ErrKind::Num);
    }
    Ok(t)
}

/// What [`date_fn`] is stated to give, for a context `ctx` and arguments `args`.
pub open spec fn date_fn_gives<'r, N: Number, R: Resolver<N>>(ctx: EvalCtx<'r, R>, args: Seq<Expr<N>>, r: Value<N>) -> bool {
    &&& r is Number || r is Error
    &&& room(ctx) ==> (lit_num(args[0]) matches Some(x) ==> (lit_num(args[1]) matches Some(y) ==> (lit_num(args[2]) matches Some(z) ==> r == spec_date_fn(x, y, z))))
}

/// `DATE(year, month, day)` — build a date serial (see [`spec_date_serial`]).
pub fn date_fn<N: Number, R: Resolver<N>>(ctx: &mut EvalCtx<R>, args: &[Expr<N>]) -> (r: Value<N>)
    requires
        args.len() == 3,
    ensures
        restored(*old(ctx), *final(ctx)),
        r is Number || r is Error,
        room(*old(ctx)) ==> (lit_num(args[0]) matches Some(x) ==> (lit_num(args[1]) matches Some(y) ==> (lit_num(args[2]) matches Some(z) ==> r == spec_date_fn(x, y, z)))),
    decreases args_size(args@), 7nat,
{
    proof {
        lemma_arg_size(args@, 0);
        lemma_arg_size(args@, 1);
        lemma_arg_size(args@, 2);
    }
    let y = match date_int_arg(ctx, &args[0]) {
        Ok(v) => v,
        Err(k) => {
            return Value::Error(k);
        },
    };
    let m = match date_int_arg(ctx, &args[1]) {
        Ok(v) => v,
        Err(k) => {
            return Value::Error(k);
        },
    };
    let d = match date_int_arg(ctx, &args[2]) {
        Ok(v) => v,
        Err(k) => {
            return Value::Error(k);
        },
    };
    match date_serial(y, m, d) {
        Ok(s) => Value::Number(N::from_int(s)),
        Err(k) => Value::Error(k),
    }
}

/// Which part of a date `YEAR`/`MONTH`/`DAY` read.
#[derive(Clone, Copy, Debug, PartialEq, Eq, Structural)]
pub enum DatePart {
    Year,
    Month,
    Day,
}

/// The year, month or day of a serial in the band.
pub fn date_part(s: i64, part: DatePart) -> (r: i64)
    requires
        1 <= s <= MAX_SERIAL,
    ensures
        r == match part {
            DatePart::Year => spec_ymd(s as int).0,
            DatePart::Month => spec_ymd(s as int).1,
            DatePart::Day => spec_ymd(s as int).2,
        },
{
    let (y, m, d) = serial_to_ymd(s);
    match part {
        DatePart::Year => y,
        DatePart::Month => m as i64,
        DatePart::Day => d as i64,
    }
}

fn part_fn<N: Number, R: Resolver<N>>(ctx: &mut EvalCtx<R>, args: &[Expr<N>], part: DatePart) -> (r: Value<N>)
    requires
        args.len() == 1,
    ensures
        restored(*old(ctx), *final(ctx)),
        r is Number || r is Error,
        room(*old(ctx)) ==> (lit_num(args[0]) matches Some(x) ==> r == spec_part_fn(x, part)),
        one_num_read(*old(ctx), args@[0], (|x: N| spec_part_fn(x, part)), r),
    decreases args_size(args@), 5nat,
{
    proof {
        lemma_arg_size(args@, 0);
    }
    let rs = date_serial_arg(ctx, &args[0]);
    let ghost c = choose|c: Result<N, ErrKind>| #[trigger] num_read(*old(ctx), args@[0], c) && rs == serial_of(c);
    proof {
        assert(num_read(*old(ctx), args@[0], c));
    }
    match rs {
        Err(k) => Value::Error(k),
        Ok(s) => Value::Number(N::from_int(date_part(s, part))),
    }
}

/// What [`year_fn`] is stated to give, for a context `ctx` and arguments `args`.
pub open spec fn year_fn_gives<'r, N: Number, R: Resolver<N>>(ctx: EvalCtx<'r, R>, args: Seq<Expr<N>>, r: Value<N>) -> bool {
    &&& r is Number || r is Error
    &&& room(ctx) ==> (lit_num(args[0]) matches Some(x) ==> r == spec_part_fn(x, DatePart::Year))
}

/// What [`year_fn`] is stated to give for the values its arguments evaluate to in `ctx`.
pub open spec fn year_fn_reads<'r, N: Number, R: Resolver<N>>(ctx: EvalCtx<'r, R>, args: Seq<Expr<N>>, r: Value<N>) -> bool {
    &&& one_num_read(ctx, args[0], (|x: N| spec_part_fn(x, DatePart::Year)), r)
}

/// `YEAR(serial)` — the Gregorian year of a date serial (`YEAR(60) = 1900`).
pub fn year_fn<N: Number, R: Resolver<N>>(ctx: &mut EvalCtx<R>, args: &[Expr<N>]) -> (r: Value<N>)
    requires
        args.len() == 1,
    ensures
        restored(*old(ctx), *final(ctx)),
        r is Number || r is Error,
        room(*old(ctx)) ==> (lit_num(args[0]) matches Some(x) ==> r == spec_part_fn(x, DatePart::Year)),
        one_num_read(*old(ctx), args@[0], (|x: N| spec_part_fn(x, DatePart::Year)), r),
    decreases args_size(args@), 7nat,
{
    part_fn(ctx, args, DatePart::Year)
}

/// What [`month_fn`] is stated to give, for a context `ctx` and arguments `args`.
pub open spec fn month_fn_gives<'r, N: Number, R: Resolver<N>>(ctx: EvalCtx<'r, R>, args: Seq<Expr<N>>, r: Value<N>) -> bool {
    &&& r is Number || r is Error
    &&& room(ctx) ==> (lit_num(args[0]) matches Some(x) ==> r == spec_part_fn(x, DatePart::Month))
}

/// What [`month_fn`] is stated to give for the values its arguments evaluate to in `ctx`.
pub open spec fn month_fn_reads<'r, N: Number, R: Resolver<N>>(ctx: EvalCtx<'r, R>, args: Seq<Expr<N>>, r: Value<N>) -> bool {
    &&& one_num_read(ctx, args[0], (|x: N| spec_part_fn(x, DatePart::Month)), r)
}

/// `MONTH(serial)` — the 1-based month of a date serial (`MONTH(60) = 2`).
pub fn month_fn<N: Number, R: Resolver<N>>(ctx: &mut EvalCtx<R>, args: &[Expr<N>]) -> (r: Value<N>)
    requires
        args.len() == 1,
    ensures
        restored(*old(ctx), *final(ctx)),
        r is Number || r is Error,
        room(*old(ctx)) ==> (lit_num(args[0]) matches Some(x) ==> r == spec_part_fn(x, DatePart::Month)),
        one_num_read(*old(ctx), args@[0], (|x: N| spec_part_fn(x, DatePart::Month)), r),
    decreases args_size(args@), 7nat,
{
    part_fn(ctx, args, DatePart::Month)
}

/// What [`day_fn`] is stated to give, for a context `ctx` and arguments `args`.
pub open spec fn day_fn_gives<'r, N: Number, R: Resolver<N>>(ctx: EvalCtx<'r, R>, args: Seq<Expr<N>>, r: Value<N>) -> bool {
    &&& r is Number || r is Error
    &&& room(ctx) ==> (lit_num(args[0]) matches Some(x) ==> r == spec_part_fn(x, DatePart::Day))
}

/// What [`day_fn`] is stated to give for the values its arguments evaluate to in `ctx`.
pub open spec fn day_fn_reads<'r, N: Number, R: Resolver<N>>(ctx: EvalCtx<'r, R>, args: Seq<Expr<N>>, r: Value<N>) -> bool {
    &&& one_num_read(ctx, args[0], (|x: N| spec_part_fn(x, DatePart::Day)), r)
}

/// `DAY(serial)` — the 1-based day of month of a date serial (`DAY(60) = 29`).
pub fn day_fn<N: Number, R: Resolver<N>>(ctx: &mut EvalCtx<R>, args: &[Expr<N>]) -> (r: Value<N>)
    requires
        args.len() == 1,
    ensures
        restored(*old(ctx), *final(ctx)),
        r is Number || r is Error,
        room(*old(ctx)) ==> (lit_num(args[0]) matches Some(x) ==> r == spec_part_fn(x, DatePart::Day)),
        one_num_read(*old(ctx), args@[0], (|x: N| spec_part_fn(x, DatePart::Day)), r),
    decreases args_size(args@), 7nat,
{
    part_fn(ctx, args, DatePart::Day)
}

fn month_shift_fn<N: Number, R: Resolver<N>>(ctx: &mut EvalCtx<R>, args: &[Expr<N>], end_of_month: bool) -> (r: Value<N>)
    requires
        args.len() == 2,
    ensures
        restored(*old(ctx), *final(ctx)),
        r is Number || r is Error,
        room(*old(ctx)) ==> (lit_num(args[0]) matches Some(x) ==> (lit_num(args[1]) matches Some(y) ==> r == spec_month_shift_fn(x, y, end_of_month))),
    decreases args_size(args@), 5nat,
{
    proof {
        lemma_arg_size(args@, 0);
        lemma_arg_size(args@, 1);
    }
    let start = match date_serial_arg(ctx, &args[0]) {
        Ok(v) => v,
        Err(k) => {
            return Value::Error(k);
        },
    };
    let months = match date_int_arg(ctx, &args[1]) {
        Ok(v) => v,
        Err(k) => {
            return Value::Error(k);
        },
    };
    match shift_months(start, months, end_of_month) {
        Ok(s) => Value::Number(N::from_int(s)),
        Err(k) => Value::Error(k),
    }
}

/// What [`edate_fn`] is stated to give, for a context `ctx` and arguments `args`.
pub open spec fn edate_fn_gives<'r, N: Number, R: Resolver<N>>(ctx: EvalCtx<'r, R>, args: Seq<Expr<N>>, r: Value<N>) -> bool {
    &&& r is Number || r is Error
    &&& room(ctx) ==> (lit_num(args[0]) matches Some(x) ==> (lit_num(args[1]) matches Some(y) ==> r == spec_month_shift_fn(x, y, false)))
}

/// `EDATE(start_date, months)` — the date `months` months on, its day clamped to the target
/// month's length (`EDATE(2020-01-31, 1) = 2020-02-29`).
pub fn edate_fn<N: Number, R: Resolver<N>>(ctx: &mut EvalCtx<R>, args: &[Expr<N>]) -> (r: Value<N>)
    requires
        args.len() == 2,
    ensures
        restored(*old(ctx), *final(ctx)),
        r is Number || r is Error,
        room(*old(ctx)) ==> (lit_num(args[0]) matches Some(x) ==> (lit_num(args[1]) matches Some(y) ==> r == spec_month_shift_fn(x, y, false))),
    decreases args_size(args@), 7nat,
{
    month_shift_fn(ctx, args, false)
}

/// What [`eomonth_fn`] is stated to give, for a context `ctx` and arguments `args`.
pub open spec fn eomonth_fn_gives<'r, N: Number, R: Resolver<N>>(ctx: EvalCtx<'r, R>, args: Seq<Expr<N>>, r: Value<N>) -> bool {
    &&& r is Number || r is Error
    &&& room(ctx) ==> (lit_num(args[0]) matches Some(x) ==> (lit_num(args[1]) matches Some(y) ==> r == spec_month_shift_fn(x, y, true)))
}

/// `EOMONTH(start_date, months)` — the last day of the month `months` months on.
pub fn eomonth_fn<N: Number, R: Resolver<N>>(ctx: &mut EvalCtx<R>, args: &[Expr<N>]) -> (r: Value<N>)
    requires
        args.len() == 2,
    ensures
        restored(*old(ctx), *final(ctx)),
        r is Number || r is Error,
        room(*old(ctx)) ==> (lit_num(args[0]) matches Some(x) ==> (lit_num(args[1]) matches Some(y) ==> r == spec_month_shift_fn(x, y, true))),
    decreases args_size(args@), 7nat,
{
    month_shift_fn(ctx, args, true)
}

/// What [`days_fn`] is stated to give, for a context `ctx` and arguments `args`.
pub open spec fn days_fn_gives<'r, N: Number, R: Resolver<N>>(ctx: EvalCtx<'r, R>, args: Seq<Expr<N>>, r: Value<N>) -> bool {
    &&& r is Number || r is Error
    &&& room(ctx) ==> (lit_num(args[0]) matches Some(x) ==> (lit_num(args[1]) matches Some(y) ==> r == spec_days_fn(x, y)))
}

/// `DAYS(end_date, start_date)` — the days from `start_date` to `end_date` (end first; negative
/// when the end precedes the start).
pub fn days_fn<N: Number, R: Resolver<N>>(ctx: &mut EvalCtx<R>, args: &[Expr<N>]) -> (r: Value<N>)
    requires
        args.len() == 2,
    ensures
        restored(*old(ctx), *final(ctx)),
        r is Number || r is Error,
        room(*old(ctx)) ==> (lit_num(args[0]) matches Some(x) ==> (lit_num(args[1]) matches Some(y) ==> r == spec_days_fn(x, y))),
    decreases args_size(args@), 7nat,
{
    proof {
        lemma_arg_size(args@, 0);
        lemma_arg_size(args@, 1);
    }
    let end = match date_serial_arg(ctx, &args[0]) {
        Ok(v) => v,
        Err(k) => {
            return Value::Error(k);
        },
    };
    let start = match date_serial_arg(ctx, &args[1]) {
        Ok(v) => v,
        Err(k) => {
            return Value::Error(k);
        },
    };
    Value::Number(N::from_int(end - start))
}

/// Weekdays cycle: serial 1 is a Sunday, each next serial is the next day of the week (Saturday
/// wrapping to Sunday), so a week later is the same day; return type 2 numbers Monday 1 … Sunday 7
/// and type 3 Monday 0 … Sunday 6, both from the Sunday-based day.
pub proof fn law_weekday_cycles(s: int)
    requires
        s >= 1,
    ensures
        spec_weekday_sun1(1) == 1,
        1 <= spec_weekday_sun1(s) <= 7,
        spec_weekday_sun1(s + 1) == spec_weekday_sun1(s) % 7 + 1,
        spec_weekday_sun1(s + 7) == spec_weekday_sun1(s),
        spec_weekday(s, 1) == Some(spec_weekday_sun1(s)),
        spec_weekday(s, 2) == Some(if spec_weekday_sun1(s) == 1 { 7 } else { spec_weekday_sun1(s) - 1 }),
        spec_weekday(s, 3) == Some(if spec_weekday_sun1(s) == 1 { 6 } else { spec_weekday_sun1(s) - 2 }),
{
}

/// `DATE` of a real calendar date gives the serial that names that date.
pub proof fn law_date_of_calendar_date(y: int, m: int, d: int)
    requires
        valid_date(y, m, d),
    ensures
        spec_date_serial(y, m, d) == Ok::<int, ErrKind>(spec_serial_from_ymd(y, m, d)),
        spec_ymd(spec_serial_from_ymd(y, m, d)) == (y, m, d),
{
    law_serial_roundtrip(y, m, d);
    assert((y * 12 + (m - 1)) / 12 == y && (y * 12 + (m - 1)) % 12 == m - 1) by (nonlinear_arith)
        requires 1 <= m <= 12;
    lemma_date_in_year(y, m, d);
    lemma_date_in_year(y, m, 1);
    lemma_date_in_year(1900, 3, 1);
    if y == 1900 && m <= 2 {
        lemma_month_order(1900, m, 3);
    }
    if y == 1900 && m > 3 {
        lemma_month_order(1900, 3, m);
    }
    if y > 1900 {
        lemma_jan1_bounds(1901, y);
    }
}

/// `EDATE` / `EOMONTH` move a real date by whole months: the result's year and month are the
/// start's moved by `months`, and its day is the start's day clamped to that month's length
/// (`EOMONTH`: the month's last day).
pub proof fn law_shift_months_moves_month(y: int, m: int, d: int, months: int, end_of_month: bool)
    requires
        valid_date(y, m, d),
    ensures
        spec_shift_months(spec_serial_from_ymd(y, m, d), months, end_of_month) matches Ok(v) ==> ({
            let t = spec_ymd(v);
            &&& t.0 * 12 + t.1 == y * 12 + m + months
            &&& t.2 == if end_of_month || d > spec_days_in_month(t.0, t.1) { spec_days_in_month(t.0, t.1) } else { d }
        }),
{
    law_serial_roundtrip(y, m, d);
    let (ny, nm) = spec_norm_month(y * 12 + (m - 1) + months);
    if spec_shift_months(spec_serial_from_ymd(y, m, d), months, end_of_month) is Ok {
        assert(1 <= nm <= 12);
        let last = spec_days_in_month(ny, nm);
        let nd = if end_of_month || d > last { last } else { d };
        assert(1 <= nd <= last);
        lemma_date_in_year(ny, nm, nd);
        if ny < 1900 {
            lemma_jan1_bounds(ny + 1, 1900);
            lemma_date_in_year(1900, 3, 1);
            assert(jan1(1900) == EPOCH_1899_12_31 + 1);
        }
        assert(valid_date(ny, nm, nd));
        law_serial_roundtrip(ny, nm, nd);
        assert(ny * 12 + (nm - 1) == y * 12 + (m - 1) + months);
    }
}

/// `DAYS(end, start)` counts from the start to the end: once both read as serials `e` and `s`, the
/// result is the number that added to `s` gives `e` — so it is negative exactly when the end
/// precedes the start — and it is `DATEDIF`'s day count from `s` to `e` whenever that is defined; an
/// argument that does not read as a serial gives its error, the end's first.
pub proof fn law_days_counts_from_start<N: Number>(x: N, y: N)
    ensures
        spec_serial_arg(x) matches Err(k) ==> spec_days_fn(x, y) == Value::<N>::Error(k),
        spec_serial_arg(x) is Ok ==> (spec_serial_arg(y) matches Err(k) ==> spec_days_fn(x, y) == Value::<N>::Error(k)),
        spec_serial_arg(x) matches Ok(e) ==> (spec_serial_arg(y) matches Ok(s) ==> (spec_days_fn(x, y) matches Value::Number(v)
            && v.spec_plus(N::spec_from_int(s)) == N::spec_from_int(e)
            && (v.spec_order(N::spec_from_int(0)) == Some(Order::Less) <==> e < s)
            && (s <= e ==> v == N::spec_from_int(spec_datedif(s as int, e as int, DateUnit::Days) as i64)))),
{
    if let Ok(e) = spec_serial_arg(x) {
        if let Ok(s) = spec_serial_arg(y) {
            N::law_exact_integers((e - s) as i64, s);
            N::law_exact_integers((e - s) as i64, 0);
        }
    }
}

/// An integer read as a date serial is itself within the band 1…2958465 and `#NUM!` outside it.
pub proof fn law_integer_serial<N: Number>(s: i64)
    requires
        -0x20_0000_0000_0000 <= s <= 0x20_0000_0000_0000,
    ensures
        spec_serial_arg(N::spec_from_int(s)) == if 1 <= s <= MAX_SERIAL { Ok::<i64, ErrKind>(s) } else { Err::<i64, ErrKind>(ErrKind::Num) },
{
    N::law_integral(s);
    N::law_exact_integers(s, 1);
    N::law_exact_integers(MAX_SERIAL, s);
}

/// `DATEDIF` in days between two integer serials in the band is their difference, and a start
/// after the end is `#NUM!`.
pub proof fn law_datedif_days<'r, N: Number, R: Resolver<N>>(ctx: EvalCtx<'r, R>, args: Seq<Expr<N>>, r: Value<N>, s: i64, e: i64)
    requires
        1 <= s <= MAX_SERIAL,
        1 <= e <= MAX_SERIAL,
        room(ctx),
        args.len() == 3,
        args[0] == Expr::Lit(Value::<N>::Number(N::spec_from_int(s))),
        args[1] == Expr::Lit(Value::<N>::Number(N::spec_from_int(e))),
        args[2] matches Expr::Lit(Value::Text(u)) && spec_date_unit(u@) == Some(DateUnit::Days),
        datedif_fn_gives(ctx, args, r),
    ensures
        r == if s <= e { Value::<N>::Number(N::spec_from_int((e - s) as i64)) } else { Value::<N>::Error(ErrKind::Num) },
{
    law_integer_serial::<N>(s);
    law_integer_serial::<N>(e);
}

/// What [`datedif_fn`] is stated to give, for a context `ctx` and arguments `args`.
pub open spec fn datedif_fn_gives<'r, N: Number, R: Resolver<N>>(ctx: EvalCtx<'r, R>, args: Seq<Expr<N>>, r: Value<N>) -> bool {
    &&& r is Number || r is Error
    &&& room(ctx) ==> (lit_num(args[0]) matches Some(x) ==> (lit_num(args[1]) matches Some(y) ==> (args[2] matches Expr::Lit(Value::Text(u)) ==> r == match (spec_serial_arg(x), spec_serial_arg(y)) {
        (Err(k), _) => Value::Error(k),
        (Ok(_), Err(k)) => Value::Error(k),
        (Ok(s), Ok(e)) => if s > e || spec_date_unit(u@) is None {
            Value::Error(ErrKind::Num)
        } else {
            Value::Number(N::spec_from_int(spec_datedif(s as int, e as int, spec_date_unit(u@)->0) as i64))
        },
    })))
}

/// What [`datedif_fn`] is stated to give for the values its arguments evaluate to in `ctx`.
pub open spec fn datedif_fn_reads<'r, N: Number, R: Resolver<N>>(ctx: EvalCtx<'r, R>, args: Seq<Expr<N>>, r: Value<N>) -> bool {
    &&& exists|c0: Result<N, ErrKind>| #[trigger] num_read(ctx, args[0], c0) && match serial_of(c0) {
        Err(k) => r == Value::<N>::Error(k),
        Ok(s) => exists|c1: Result<N, ErrKind>| #[trigger] num_read(ctx, args[1], c1) && match serial_of(c1) {
            Err(k) => r == Value::<N>::Error(k),
            Ok(e) => exists|u: Result<Seq<char>, ErrKind>| #[trigger] text_read(ctx, args[2], u) && match u {
                Err(k) => r == Value::<N>::Error(k),
                Ok(unit) => r == if s > e || spec_date_unit(unit) is None {
                    Value::<N>::Error(ErrKind::Num)
                } else {
                    Value::<N>::Number(N::spec_from_int(spec_datedif(s as int, e as int, spec_date_unit(unit)->0) as i64))
                },
            },
        },
    }
}

/// `DATEDIF(start_date, end_date, unit)` — the elapsed time in `unit` (see [`spec_datedif`]); the
/// unit folds case; a start after the end or an unknown unit is `#NUM!`.
pub fn datedif_fn<N: Number, R: Resolver<N>>(ctx: &mut EvalCtx<R>, args: &[Expr<N>]) -> (r: Value<N>)
    requires
        args.len() == 3,
    ensures
        restored(*old(ctx), *final(ctx)),
        r is Number || r is Error,
        room(*old(ctx)) ==> (lit_num(args[0]) matches Some(x) ==> (lit_num(args[1]) matches Some(y) ==> (args[2] matches Expr::Lit(Value::Text(u)) ==> r == match (spec_serial_arg(x), spec_serial_arg(y)) {
            (Err(k), _) => Value::Error(k),
            (Ok(_), Err(k)) => Value::Error(k),
            (Ok(s), Ok(e)) => if s > e || spec_date_unit(u@) is None {
                Value::Error(ErrKind::Num)
            } else {
                Value::Number(N::spec_from_int(spec_datedif(s as int, e as int, spec_date_unit(u@)->0) as i64))
            },
        }))),
        exists|c0: Result<N, ErrKind>| #[trigger] num_read(*old(ctx), args@[0], c0) && match serial_of(c0) {
            Err(k) => r == Value::<N>::Error(k),
            Ok(s) => exists|c1: Result<N, ErrKind>| #[trigger] num_read(*old(ctx), args@[1], c1) && match serial_of(c1) {
                Err(k) => r == Value::<N>::Error(k),
                Ok(e) => exists|u: Result<Seq<char>, ErrKind>| #[trigger] text_read(*old(ctx), args@[2], u) && match u {
                    Err(k) => r == Value::<N>::Error(k),
                    Ok(unit) => r == if s > e || spec_date_unit(unit) is None {
                        Value::<N>::Error(ErrKind::Num)
                    } else {
                        Value::<N>::Number(N::spec_from_int(spec_datedif(s as int, e as int, spec_date_unit(unit)->0) as i64))
                    },
                },
            },
        },
    decreases args_size(args@), 7nat,
{
    proof {
        lemma_arg_size(args@, 0);
        lemma_arg_size(args@, 1);
        lemma_arg_size(args@, 2);
    }
    let s = match date_serial_arg(ctx, &args[0]) {
        Ok(v) => v,
        Err(k) => {
            return Value::Error(k);
        },
    };
    proof {
        lemma_restored_same(*old(ctx), *ctx);
    }
    let e = match date_serial_arg(ctx, &args[1]) {
        Ok(v) => v,
        Err(k) => {
            return Value::Error(k);
        },
    };
    proof {
        lemma_restored_same(*old(ctx), *ctx);
    }
    let ru = arg_text(ctx, &args[2]);
    proof {
        assert(text_read(*old(ctx), args@[2], text_res(ru)));
    }
    let unit = match ru {
        Ok(u) => u,
        Err(k) => {
            return Value::Error(k);
        },
    };
    match datedif_value(s, e, unit.as_str()) {
        Ok(v) => Value::Number(N::from_int(v)),
        Err(k) => Value::Error(k),
    }
}

/// What [`weekday_fn`] is stated to give, for a context `ctx` and arguments `args`.
pub open spec fn weekday_fn_gives<'r, N: Number, R: Resolver<N>>(ctx: EvalCtx<'r, R>, args: Seq<Expr<N>>, r: Value<N>) -> bool {
    &&& r is Number || r is Error
    &&& room(ctx) ==> (lit_num(args[0]) matches Some(x) ==> (lit_arg(args, 1, N::spec_from_int(1)) matches Some(y) ==> r == match spec_serial_arg(x) {
        Err(k) => Value::Error(k),
        Ok(s) => match spec_weekday(s as int, (if args.len() == 2 { y.spec_trunc_int() } else { 1i64 }) as int) {
            Some(v) => Value::Number(N::spec_from_int(v as i64)),
            None => Value::Error(ErrKind::Num),
        },
    }))
}

/// `WEEKDAY(serial, [return_type])` — the day of week (see [`spec_weekday`]); an unsupported
/// type is `#NUM!`.
pub fn weekday_fn<N: Number, R: Resolver<N>>(ctx: &mut EvalCtx<R>, args: &[Expr<N>]) -> (r: Value<N>)
    requires
        1 <= args.len() <= 2,
    ensures
        restored(*old(ctx), *final(ctx)),
        r is Number || r is Error,
        room(*old(ctx)) ==> (lit_num(args[0]) matches Some(x) ==> (lit_arg(args@, 1, N::spec_from_int(1)) matches Some(y) ==> r == match spec_serial_arg(x) {
            Err(k) => Value::Error(k),
            Ok(s) => match spec_weekday(s as int, (if args@.len() == 2 { y.spec_trunc_int() } else { 1i64 }) as int) {
                Some(v) => Value::Number(N::spec_from_int(v as i64)),
                None => Value::Error(ErrKind::Num),
            },
        })),
    decreases args_size(args@), 7nat,
{
    proof {
        lemma_arg_size(args@, 0);
        if args.len() == 2 {
            lemma_arg_size(args@, 1);
        }
    }
    let serial = match date_serial_arg(ctx, &args[0]) {
        Ok(v) => v,
        Err(k) => {
            return Value::Error(k);
        },
    };
    let rtype = if args.len() == 2 {
        match one_num(ctx, &args[1]) {
            Ok(n) => n.trunc_int(),
            Err(k) => {
                return Value::Error(k);
            },
        }
    } else {
        1
    };
    match weekday_value(serial, rtype) {
        Some(v) => Value::Number(N::from_int(v)),
        None => Value::Error(ErrKind::Num),
    }
}

/// What [`today_fn`] is stated to give, for a context `ctx` and arguments `args`.
pub open spec fn today_fn_gives<'r, N: Number, R: Resolver<N>>(ctx: EvalCtx<'r, R>, args: Seq<Expr<N>>, r: Value<N>) -> bool {
    &&& r is Number || r == Value::<N>::Error(ErrKind::Num)
    &&& exists|now: N| r == #[trigger] spec_finite_or_num(now.spec_floor_of())
}

/// `TODAY()` — the current date serial (the clock's serial floored), read from the resolver's
/// clock, never from the system.
pub fn today_fn<N: Number, R: Resolver<N>>(ctx: &mut EvalCtx<R>, args: &[Expr<N>]) -> (r: Value<N>)
    ensures
        restored(*old(ctx), *final(ctx)),
        r is Number || r == Value::<N>::Error(ErrKind::Num),
        exists|now: N| r == #[trigger] spec_finite_or_num(now.spec_floor_of()),
    decreases args_size(args@), 7nat,
{
    today_of(ctx.now_serial())
}

/// The date `TODAY` gives for a clock reading `now` (a date-time serial): its whole day, or `#NUM!`
/// when that is not finite.
pub fn today_of<N: Number>(now: N) -> (r: Value<N>)
    ensures
        r == spec_finite_or_num(now.spec_floor_of()),
{
    finite_or_num(now.floor_of())
}

/// What [`now_fn`] is stated to give, for a context `ctx` and arguments `args`.
pub open spec fn now_fn_gives<'r, N: Number, R: Resolver<N>>(ctx: EvalCtx<'r, R>, args: Seq<Expr<N>>, r: Value<N>) -> bool {
    &&& r is Number || r == Value::<N>::Error(ErrKind::Num)
    &&& exists|now: N| r == #[trigger] spec_finite_or_num(now)
}

/// `NOW()` — the current date-time serial, read from the resolver's clock.
pub fn now_fn<N: Number, R: Resolver<N>>(ctx: &mut EvalCtx<R>, args: &[Expr<N>]) -> (r: Value<N>)
    ensures
        restored(*old(ctx), *final(ctx)),
        r is Number || r == Value::<N>::Error(ErrKind::Num),
        exists|now: N| r == #[trigger] spec_finite_or_num(now),
    decreases args_size(args@), 7nat,
{
    finite_or_num(ctx.now_serial())
}

} // verus!
