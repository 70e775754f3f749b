//! The function registry: [`FuncDef`], the registry rows ([`def`], [`funcs`]), [`lookup`] and
//! [`dispatch`].
//!
//! A function is a row, not a hand-forked code path: the parser resolves a name to a [`FuncId`]
//! and checks arity against the row (so evaluation trusts the arity), and the evaluator dispatches
//! the row. The built-ins themselves live in per-family submodules.

use vstd::prelude::*;
use crate::diag::{Diag, DiagCode, Span};
use crate::eval::{restored, EvalCtx};
use crate::expr::{args_size, Expr, FuncId, Resolver};
use crate::strings::{eq_ignore_case, lower_seq};
use crate::value::{ErrKind, Number, Value};

pub mod helpers;
pub mod aggregation;
pub mod logical;
pub mod math;
pub mod stats;
pub mod criteria_agg;
pub mod text;
pub mod text_format;
pub mod date;
pub mod array;
pub mod lookup;
pub mod info;
pub mod finance;
pub mod spill;
pub mod calendar;
pub mod combinatorics;
pub mod order_stats;
pub mod subtotal;
pub mod database;
pub mod regression;
pub mod rounding;
pub mod descriptive;
pub mod ranking;
pub mod random;
pub mod convert;

use aggregation::{average, count, counta, countblank, product, sum, sumproduct};
use criteria_agg::{averageif, averageifs, countif, countifs, maxifs, minifs, sumif, sumifs};
use date::{date_fn, datedif_fn, day_fn, days_fn, edate_fn, eomonth_fn, month_fn, now_fn, today_fn, weekday_fn, year_fn};
use logical::{and_fn, if_fn, iferror, ifna, ifs_fn, not_fn, or_fn, switch_fn};
use math::{abs_fn, ceiling_fn, floor_fn, int_fn, mod_fn, power_fn, round_fn, rounddown, roundup, sqrt_fn};
use stats::{max_fn, median_fn, min_fn, rank_fn};
use text::{concat_fn, find_fn, left_fn, len_fn, lower_fn, mid_fn, replace_fn, right_fn, search_fn, substitute_fn, textjoin_fn, trim_fn, upper_fn};
use text_format::{refused_format, text_fn, unsupported_format_message, validate_text_format};
use lookup::{choose_fn, column_fn, columns_fn, hlookup, index_fn, lookup_fn, match_fn, refuse_reserved_ref_function, reserved_ref_message, reserved_ref_eval, row_fn, rows_fn, vlookup, xlookup, xmatch};
use finance::{fv_fn, irr_fn, npv_fn, pmt_fn};
use spill::{filter_fn, sequence_fn, sort_fn, transpose_fn, unique_fn};
use calendar::{hour_fn, minute_fn, networkdays_fn, second_fn, time_fn, weeknum_fn, workday_fn, yearfrac_fn};
use combinatorics::{combin_fn, fact_fn, gcd_fn, lcm_fn};
use order_stats::{large_fn, mode_fn, percentile_fn, quartile_fn, small_fn, stdev_fn, stdevp_fn, var_fn, varp_fn};
use subtotal::{aggregate_fn, subtotal_fn};
use database::{daverage, dcount, dcounta, dget, dmax, dmin, dsum};
use regression::{correl_fn, forecast_fn, intercept_fn, rsq_fn, slope_fn, trend_fn};
use rounding::{even_fn, mround_fn, odd_fn, quotient_fn, sign_fn, sumsq, trunc_fn};
use logical::{false_fn, true_fn, xor_fn};
use descriptive::{avedev_fn, averagea_fn, geomean_fn, harmean_fn, kurt_fn, maxa_fn, mina_fn, skew_fn};
use ranking::{frequency_fn, percentrank_inc_fn};
use finance::{ipmt_fn, nper_fn, ppmt_fn, rate_fn, xirr_fn, xnpv_fn};
use convert::convert_fn;
use info::{isblank, isformula_fn, iserr, iserror, iseven_fn, islogical, isna, isnontext, isnumber, isodd_fn, istext, n_fn, na_fn, type_fn};

use aggregation::{average_gives, count_gives, counta_gives, countblank_gives, product_gives, sum_gives, sumproduct_gives};
use calendar::{hour_fn_gives, minute_fn_gives, networkdays_fn_gives, second_fn_gives, time_fn_gives, weeknum_fn_gives, workday_fn_gives, yearfrac_fn_gives};
use combinatorics::{combin_fn_gives, fact_fn_gives, gcd_fn_gives, lcm_fn_gives};
use convert::{convert_fn_gives};
use criteria_agg::{averageif_gives, averageifs_gives, countif_gives, countifs_gives, maxifs_gives, minifs_gives, sumif_gives, sumifs_gives};
use database::{daverage_gives, dcount_gives, dcounta_gives, dget_gives, dmax_gives, dmin_gives, dsum_gives};
use date::{date_fn_gives, datedif_fn_gives, day_fn_gives, days_fn_gives, edate_fn_gives, eomonth_fn_gives, month_fn_gives, now_fn_gives, today_fn_gives, weekday_fn_gives, year_fn_gives};
use descriptive::{avedev_fn_gives, averagea_fn_gives, geomean_fn_gives, harmean_fn_gives, kurt_fn_gives, maxa_fn_gives, mina_fn_gives, skew_fn_gives};
use finance::{fv_fn_gives, ipmt_fn_gives, irr_fn_gives, nper_fn_gives, npv_fn_gives, pmt_fn_gives, ppmt_fn_gives, rate_fn_gives, xirr_fn_gives, xnpv_fn_gives};
use info::{isblank_gives, iserr_gives, iserror_gives, iseven_fn_gives, isformula_fn_gives, islogical_gives, isna_gives, isnontext_gives, isnumber_gives, isodd_fn_gives, istext_gives, n_fn_gives, na_fn_gives, type_fn_gives};
use logical::{and_fn_gives, false_fn_gives, if_fn_gives, iferror_gives, ifna_gives, ifs_fn_gives, not_fn_gives, or_fn_gives, switch_fn_gives, true_fn_gives, xor_fn_gives};
use lookup::{choose_fn_gives, column_fn_gives, columns_fn_gives, hlookup_gives, index_fn_gives, lookup_fn_gives, match_fn_gives, reserved_ref_eval_gives, row_fn_gives, rows_fn_gives, vlookup_gives, xlookup_gives, xmatch_gives};
use math::{abs_fn_gives, ceiling_fn_gives, floor_fn_gives, int_fn_gives, mod_fn_gives, power_fn_gives, round_fn_gives, rounddown_gives, roundup_gives, sqrt_fn_gives};
use order_stats::{large_fn_gives, mode_fn_gives, percentile_fn_gives, quartile_fn_gives, small_fn_gives, stdev_fn_gives, stdevp_fn_gives, var_fn_gives, varp_fn_gives};
use ranking::{frequency_fn_gives, percentrank_inc_fn_gives};
use regression::{correl_fn_gives, forecast_fn_gives, intercept_fn_gives, rsq_fn_gives, slope_fn_gives, trend_fn_gives};
use rounding::{even_fn_gives, mround_fn_gives, odd_fn_gives, quotient_fn_gives, sign_fn_gives, sumsq_gives, trunc_fn_gives};
use spill::{filter_fn_gives, sequence_fn_gives, sort_fn_gives, transpose_fn_gives, unique_fn_gives};
use stats::{max_fn_gives, median_fn_gives, min_fn_gives, rank_fn_gives};
use subtotal::{aggregate_fn_gives, subtotal_fn_gives};
use text::{concat_fn_gives, find_fn_gives, left_fn_gives, len_fn_gives, lower_fn_gives, mid_fn_gives, replace_fn_gives, right_fn_gives, search_fn_gives, substitute_fn_gives, textjoin_fn_gives, trim_fn_gives, upper_fn_gives};
use text_format::{text_fn_gives};


















use aggregation::{average_reads, count_reads, counta_reads, product_reads, sum_reads};
use calendar::{hour_fn_reads, minute_fn_reads, second_fn_reads};
use combinatorics::{fact_fn_reads};
use criteria_agg::{averageifs_reads, countifs_reads, maxifs_reads, minifs_reads, sumifs_reads};
use date::{datedif_fn_reads, day_fn_reads, month_fn_reads, year_fn_reads};
use descriptive::{avedev_fn_reads, geomean_fn_reads, harmean_fn_reads, kurt_fn_reads, skew_fn_reads};
use finance::{irr_fn_reads, xirr_fn_reads, xnpv_fn_reads};
use info::{isblank_reads, iserr_reads, iserror_reads, iseven_fn_reads, islogical_reads, isna_reads, isnontext_reads, isnumber_reads, isodd_fn_reads, istext_reads, n_fn_reads, type_fn_reads};
use logical::{and_fn_reads, if_fn_reads, iferror_reads, ifna_reads, not_fn_reads, or_fn_reads, xor_fn_reads};
use lookup::{xlookup_reads};
use math::{abs_fn_reads, ceiling_fn_reads, floor_fn_reads, int_fn_reads, mod_fn_reads, power_fn_reads, round_fn_reads, rounddown_reads, roundup_reads, sqrt_fn_reads};
use order_stats::{large_fn_reads, mode_fn_reads, small_fn_reads, stdev_fn_reads, stdevp_fn_reads, var_fn_reads, varp_fn_reads};
use regression::{trend_fn_reads};
use rounding::{even_fn_reads, mround_fn_reads, odd_fn_reads, quotient_fn_reads, sign_fn_reads, sumsq_reads};
use spill::{filter_fn_reads, sort_fn_reads, unique_fn_reads};
use stats::{max_fn_reads, median_fn_reads, min_fn_reads, rank_fn_reads};
use subtotal::{aggregate_fn_reads};
use text::{len_fn_reads, lower_fn_reads, substitute_fn_reads, trim_fn_reads, upper_fn_reads};

verus! {

/// A parse-time argument check a row may carry beyond its arity.
#[derive(Clone, Copy, Debug, PartialEq, Eq)]
pub enum Validator {
    /// `TEXT`: refuse a literal format code outside the supported subset.
    TextFormat,
    /// `INDIRECT`/`OFFSET`: refuse every call (reference-returning functions are reserved).
    ReservedRef,
}

/// The scalar-expecting argument positions over which an array argument maps a call element-wise
/// (implicit array evaluation): none, one position (the criterion of the single-criterion
/// aggregations), or every position (the scalar text functions).
#[derive(Clone, Copy, Debug, PartialEq, Eq, Structural)]
pub enum Broadcast {
    Never,
    At(usize),
    Every,
}

/// One registry row. `max_args = None` is unbounded (variadic). `volatile` marks a function whose
/// value can change between evaluations of the same tree against the same resolver (the clock
/// functions); `broadcast` names the positions of implicit array evaluation.
#[derive(Clone, Copy, Debug)]
pub struct FuncDef {
    pub name: &'static str,
    pub min_args: usize,
    pub max_args: Option<usize>,
    pub volatile: bool,
    pub validate: Option<Validator>,
    pub broadcast: Broadcast,
}

/// Whether `n` arguments satisfy a row's arity bounds.
pub open spec fn spec_arity_ok(f: FuncDef, n: nat) -> bool {
    n >= f.min_args && (f.max_args matches Some(max) ==> n <= max)
}

impl FuncDef {
    /// Whether `n` arguments satisfy this function's arity bounds.
    pub fn arity_ok(&self, n: usize) -> (r: bool)
        ensures
            r == spec_arity_ok(*self, n as nat),
    {
        n >= self.min_args && match self.max_args {
            Some(max) => n <= max,
            None => true,
        }
    }

    /// Run this row's optional parse-time argument check (a no-op when the row has none).
    pub fn validate_args<N: Number>(&self, args: &[Expr<N>], span: Span) -> (r: Result<(), Diag>)
        ensures
            self.validate is None ==> r is Ok,
            self.validate == Some(Validator::TextFormat) ==> (match refused_format(args@) {
                Some(f) => r matches Err(d) && d.code == DiagCode::UnsupportedFormat && d.span == span
                    && d.message@ == unsupported_format_message(f),
                None => r is Ok,
            }),
            self.validate == Some(Validator::ReservedRef) ==> (r matches Err(d) && d.code == DiagCode::ReservedRefFunction
                && d.span == span && d.message@ == reserved_ref_message()),
    {
        match self.validate {
            Some(Validator::TextFormat) => validate_text_format(args, span),
            Some(Validator::ReservedRef) => refuse_reserved_ref_function(args, span),
            None => Ok(()),
        }
    }
}

/// The number of registry rows.
pub const FUNC_COUNT: u32 = 162;

/// The registry row with a given id.
pub open spec fn spec_def(id: u32) -> Option<FuncDef> {
    match id {
        0u32 => Some(FuncDef { name: "SUM", min_args: 1usize, max_args: None, volatile: false, validate: None, broadcast: Broadcast::Never }),
        1u32 => Some(FuncDef { name: "AVERAGE", min_args: 1usize, max_args: None, volatile: false, validate: None, broadcast: Broadcast::Never }),
        2u32 => Some(FuncDef { name: "COUNT", min_args: 1usize, max_args: None, volatile: false, validate: None, broadcast: Broadcast::Never }),
        3u32 => Some(FuncDef { name: "IF", min_args: 2usize, max_args: Some(3usize), volatile: false, validate: None, broadcast: Broadcast::Never }),
        4u32 => Some(FuncDef { name: "IFERROR", min_args: 2usize, max_args: Some(2usize), volatile: false, validate: None, broadcast: Broadcast::Never }),
        5u32 => Some(FuncDef { name: "AND", min_args: 1usize, max_args: None, volatile: false, validate: None, broadcast: Broadcast::Never }),
        6u32 => Some(FuncDef { name: "OR", min_args: 1usize, max_args: None, volatile: false, validate: None, broadcast: Broadcast::Never }),
        7u32 => Some(FuncDef { name: "ABS", min_args: 1usize, max_args: Some(1usize), volatile: false, validate: None, broadcast: Broadcast::Never }),
        8u32 => Some(FuncDef { name: "ROUND", min_args: 2usize, max_args: Some(2usize), volatile: false, validate: None, broadcast: Broadcast::Never }),
        9u32 => Some(FuncDef { name: "SUMIF", min_args: 2usize, max_args: Some(3usize), volatile: false, validate: None, broadcast: Broadcast::At(1usize) }),
        10u32 => Some(FuncDef { name: "SUMIFS", min_args: 3usize, max_args: None, volatile: false, validate: None, broadcast: Broadcast::Never }),
        11u32 => Some(FuncDef { name: "COUNTIF", min_args: 2usize, max_args: Some(2usize), volatile: false, validate: None, broadcast: Broadcast::At(1usize) }),
        12u32 => Some(FuncDef { name: "COUNTIFS", min_args: 2usize, max_args: None, volatile: false, validate: None, broadcast: Broadcast::Never }),
        13u32 => Some(FuncDef { name: "AVERAGEIF", min_args: 2usize, max_args: Some(3usize), volatile: false, validate: None, broadcast: Broadcast::At(1usize) }),
        14u32 => Some(FuncDef { name: "AVERAGEIFS", min_args: 3usize, max_args: None, volatile: false, validate: None, broadcast: Broadcast::Never }),
        15u32 => Some(FuncDef { name: "MINIFS", min_args: 3usize, max_args: None, volatile: false, validate: None, broadcast: Broadcast::Never }),
        16u32 => Some(FuncDef { name: "MAXIFS", min_args: 3usize, max_args: None, volatile: false, validate: None, broadcast: Broadcast::Never }),
        17u32 => Some(FuncDef { name: "PRODUCT", min_args: 1usize, max_args: None, volatile: false, validate: None, broadcast: Broadcast::Never }),
        18u32 => Some(FuncDef { name: "SUMPRODUCT", min_args: 1usize, max_args: None, volatile: false, validate: None, broadcast: Broadcast::Never }),
        19u32 => Some(FuncDef { name: "ROUNDUP", min_args: 2usize, max_args: Some(2usize), volatile: false, validate: None, broadcast: Broadcast::Never }),
        20u32 => Some(FuncDef { name: "ROUNDDOWN", min_args: 2usize, max_args: Some(2usize), volatile: false, validate: None, broadcast: Broadcast::Never }),
        21u32 => Some(FuncDef { name: "INT", min_args: 1usize, max_args: Some(1usize), volatile: false, validate: None, broadcast: Broadcast::Never }),
        22u32 => Some(FuncDef { name: "MOD", min_args: 2usize, max_args: Some(2usize), volatile: false, validate: None, broadcast: Broadcast::Never }),
        23u32 => Some(FuncDef { name: "POWER", min_args: 2usize, max_args: Some(2usize), volatile: false, validate: None, broadcast: Broadcast::Never }),
        24u32 => Some(FuncDef { name: "SQRT", min_args: 1usize, max_args: Some(1usize), volatile: false, validate: None, broadcast: Broadcast::Never }),
        25u32 => Some(FuncDef { name: "CEILING", min_args: 2usize, max_args: Some(2usize), volatile: false, validate: None, broadcast: Broadcast::Never }),
        26u32 => Some(FuncDef { name: "FLOOR", min_args: 2usize, max_args: Some(2usize), volatile: false, validate: None, broadcast: Broadcast::Never }),
        27u32 => Some(FuncDef { name: "MIN", min_args: 1usize, max_args: None, volatile: false, validate: None, broadcast: Broadcast::Never }),
        28u32 => Some(FuncDef { name: "MAX", min_args: 1usize, max_args: None, volatile: false, validate: None, broadcast: Broadcast::Never }),
        29u32 => Some(FuncDef { name: "MEDIAN", min_args: 1usize, max_args: None, volatile: false, validate: None, broadcast: Broadcast::Never }),
        30u32 => Some(FuncDef { name: "RANK", min_args: 2usize, max_args: Some(3usize), volatile: false, validate: None, broadcast: Broadcast::Never }),
        31u32 => Some(FuncDef { name: "COUNTA", min_args: 1usize, max_args: None, volatile: false, validate: None, broadcast: Broadcast::Never }),
        32u32 => Some(FuncDef { name: "COUNTBLANK", min_args: 1usize, max_args: Some(1usize), volatile: false, validate: None, broadcast: Broadcast::Never }),
        33u32 => Some(FuncDef { name: "IFS", min_args: 2usize, max_args: None, volatile: false, validate: None, broadcast: Broadcast::Never }),
        34u32 => Some(FuncDef { name: "NOT", min_args: 1usize, max_args: Some(1usize), volatile: false, validate: None, broadcast: Broadcast::Never }),
        35u32 => Some(FuncDef { name: "IFNA", min_args: 2usize, max_args: Some(2usize), volatile: false, validate: None, broadcast: Broadcast::Never }),
        36u32 => Some(FuncDef { name: "SWITCH", min_args: 3usize, max_args: None, volatile: false, validate: None, broadcast: Broadcast::Never }),
        37u32 => Some(FuncDef { name: "CONCAT", min_args: 1usize, max_args: None, volatile: false, validate: None, broadcast: Broadcast::Never }),
        38u32 => Some(FuncDef { name: "TEXTJOIN", min_args: 3usize, max_args: None, volatile: false, validate: None, broadcast: Broadcast::Never }),
        39u32 => Some(FuncDef { name: "LEFT", min_args: 1usize, max_args: Some(2usize), volatile: false, validate: None, broadcast: Broadcast::Every }),
        40u32 => Some(FuncDef { name: "RIGHT", min_args: 1usize, max_args: Some(2usize), volatile: false, validate: None, broadcast: Broadcast::Every }),
        41u32 => Some(FuncDef { name: "MID", min_args: 3usize, max_args: Some(3usize), volatile: false, validate: None, broadcast: Broadcast::Every }),
        42u32 => Some(FuncDef { name: "LEN", min_args: 1usize, max_args: Some(1usize), volatile: false, validate: None, broadcast: Broadcast::Every }),
        43u32 => Some(FuncDef { name: "FIND", min_args: 2usize, max_args: Some(3usize), volatile: false, validate: None, broadcast: Broadcast::Every }),
        44u32 => Some(FuncDef { name: "SEARCH", min_args: 2usize, max_args: Some(3usize), volatile: false, validate: None, broadcast: Broadcast::Every }),
        45u32 => Some(FuncDef { name: "SUBSTITUTE", min_args: 3usize, max_args: Some(4usize), volatile: false, validate: None, broadcast: Broadcast::Every }),
        46u32 => Some(FuncDef { name: "REPLACE", min_args: 4usize, max_args: Some(4usize), volatile: false, validate: None, broadcast: Broadcast::Never }),
        47u32 => Some(FuncDef { name: "TRIM", min_args: 1usize, max_args: Some(1usize), volatile: false, validate: None, broadcast: Broadcast::Every }),
        48u32 => Some(FuncDef { name: "UPPER", min_args: 1usize, max_args: Some(1usize), volatile: false, validate: None, broadcast: Broadcast::Every }),
        49u32 => Some(FuncDef { name: "LOWER", min_args: 1usize, max_args: Some(1usize), volatile: false, validate: None, broadcast: Broadcast::Every }),
        50u32 => Some(FuncDef { name: "TEXT", min_args: 2usize, max_args: Some(2usize), volatile: false, validate: Some(Validator::TextFormat), broadcast: Broadcast::Every }),
        51u32 => Some(FuncDef { name: "DATE", min_args: 3usize, max_args: Some(3usize), volatile: false, validate: None, broadcast: Broadcast::Never }),
        52u32 => Some(FuncDef { name: "YEAR", min_args: 1usize, max_args: Some(1usize), volatile: false, validate: None, broadcast: Broadcast::Never }),
        53u32 => Some(FuncDef { name: "MONTH", min_args: 1usize, max_args: Some(1usize), volatile: false, validate: None, broadcast: Broadcast::Never }),
        54u32 => Some(FuncDef { name: "DAY", min_args: 1usize, max_args: Some(1usize), volatile: false, validate: None, broadcast: Broadcast::Never }),
        55u32 => Some(FuncDef { name: "EDATE", min_args: 2usize, max_args: Some(2usize), volatile: false, validate: None, broadcast: Broadcast::Never }),
        56u32 => Some(FuncDef { name: "DATEDIF", min_args: 3usize, max_args: Some(3usize), volatile: false, validate: None, broadcast: Broadcast::Never }),
        57u32 => Some(FuncDef { name: "TODAY", min_args: 0usize, max_args: Some(0usize), volatile: true, validate: None, broadcast: Broadcast::Never }),
        58u32 => Some(FuncDef { name: "NOW", min_args: 0usize, max_args: Some(0usize), volatile: true, validate: None, broadcast: Broadcast::Never }),
        59u32 => Some(FuncDef { name: "EOMONTH", min_args: 2usize, max_args: Some(2usize), volatile: false, validate: None, broadcast: Broadcast::Never }),
        60u32 => Some(FuncDef { name: "DAYS", min_args: 2usize, max_args: Some(2usize), volatile: false, validate: None, broadcast: Broadcast::Never }),
        61u32 => Some(FuncDef { name: "WEEKDAY", min_args: 1usize, max_args: Some(2usize), volatile: false, validate: None, broadcast: Broadcast::Never }),
        62u32 => Some(FuncDef { name: "XLOOKUP", min_args: 3usize, max_args: Some(6usize), volatile: false, validate: None, broadcast: Broadcast::Never }),
        63u32 => Some(FuncDef { name: "INDEX", min_args: 2usize, max_args: Some(3usize), volatile: false, validate: None, broadcast: Broadcast::Never }),
        64u32 => Some(FuncDef { name: "MATCH", min_args: 2usize, max_args: Some(3usize), volatile: false, validate: None, broadcast: Broadcast::Never }),
        65u32 => Some(FuncDef { name: "VLOOKUP", min_args: 3usize, max_args: Some(4usize), volatile: false, validate: None, broadcast: Broadcast::Never }),
        66u32 => Some(FuncDef { name: "HLOOKUP", min_args: 3usize, max_args: Some(4usize), volatile: false, validate: None, broadcast: Broadcast::Never }),
        67u32 => Some(FuncDef { name: "LOOKUP", min_args: 2usize, max_args: Some(3usize), volatile: false, validate: None, broadcast: Broadcast::Never }),
        68u32 => Some(FuncDef { name: "XMATCH", min_args: 2usize, max_args: Some(3usize), volatile: false, validate: None, broadcast: Broadcast::Never }),
        69u32 => Some(FuncDef { name: "CHOOSE", min_args: 2usize, max_args: None, volatile: false, validate: None, broadcast: Broadcast::Never }),
        70u32 => Some(FuncDef { name: "ROW", min_args: 1usize, max_args: Some(1usize), volatile: false, validate: None, broadcast: Broadcast::Never }),
        71u32 => Some(FuncDef { name: "COLUMN", min_args: 1usize, max_args: Some(1usize), volatile: false, validate: None, broadcast: Broadcast::Never }),
        72u32 => Some(FuncDef { name: "ROWS", min_args: 1usize, max_args: Some(1usize), volatile: false, validate: None, broadcast: Broadcast::Never }),
        73u32 => Some(FuncDef { name: "COLUMNS", min_args: 1usize, max_args: Some(1usize), volatile: false, validate: None, broadcast: Broadcast::Never }),
        74u32 => Some(FuncDef { name: "INDIRECT", min_args: 1usize, max_args: Some(2usize), volatile: false, validate: Some(Validator::ReservedRef), broadcast: Broadcast::Never }),
        75u32 => Some(FuncDef { name: "OFFSET", min_args: 3usize, max_args: Some(5usize), volatile: false, validate: Some(Validator::ReservedRef), broadcast: Broadcast::Never }),
        76u32 => Some(FuncDef { name: "ISBLANK", min_args: 1usize, max_args: Some(1usize), volatile: false, validate: None, broadcast: Broadcast::Never }),
        77u32 => Some(FuncDef { name: "ISNUMBER", min_args: 1usize, max_args: Some(1usize), volatile: false, validate: None, broadcast: Broadcast::Never }),
        78u32 => Some(FuncDef { name: "ISTEXT", min_args: 1usize, max_args: Some(1usize), volatile: false, validate: None, broadcast: Broadcast::Never }),
        79u32 => Some(FuncDef { name: "ISNONTEXT", min_args: 1usize, max_args: Some(1usize), volatile: false, validate: None, broadcast: Broadcast::Never }),
        80u32 => Some(FuncDef { name: "ISLOGICAL", min_args: 1usize, max_args: Some(1usize), volatile: false, validate: None, broadcast: Broadcast::Never }),
        81u32 => Some(FuncDef { name: "ISERROR", min_args: 1usize, max_args: Some(1usize), volatile: false, validate: None, broadcast: Broadcast::Never }),
        82u32 => Some(FuncDef { name: "ISERR", min_args: 1usize, max_args: Some(1usize), volatile: false, validate: None, broadcast: Broadcast::Never }),
        83u32 => Some(FuncDef { name: "ISNA", min_args: 1usize, max_args: Some(1usize), volatile: false, validate: None, broadcast: Broadcast::Never }),
        84u32 => Some(FuncDef { name: "NA", min_args: 0usize, max_args: Some(0usize), volatile: false, validate: None, broadcast: Broadcast::Never }),
        85u32 => Some(FuncDef { name: "TYPE", min_args: 1usize, max_args: Some(1usize), volatile: false, validate: None, broadcast: Broadcast::Never }),
        86u32 => Some(FuncDef { name: "N", min_args: 1usize, max_args: Some(1usize), volatile: false, validate: None, broadcast: Broadcast::Never }),
        87u32 => Some(FuncDef { name: "ISEVEN", min_args: 1usize, max_args: Some(1usize), volatile: false, validate: None, broadcast: Broadcast::Never }),
        88u32 => Some(FuncDef { name: "ISODD", min_args: 1usize, max_args: Some(1usize), volatile: false, validate: None, broadcast: Broadcast::Never }),
        89u32 => Some(FuncDef { name: "PMT", min_args: 3usize, max_args: Some(5usize), volatile: false, validate: None, broadcast: Broadcast::Never }),
        90u32 => Some(FuncDef { name: "FV", min_args: 3usize, max_args: Some(5usize), volatile: false, validate: None, broadcast: Broadcast::Never }),
        91u32 => Some(FuncDef { name: "NPV", min_args: 2usize, max_args: None, volatile: false, validate: None, broadcast: Broadcast::Never }),
        92u32 => Some(FuncDef { name: "IRR", min_args: 1usize, max_args: Some(2usize), volatile: false, validate: None, broadcast: Broadcast::Never }),
        93u32 => Some(FuncDef { name: "SORT", min_args: 1usize, max_args: Some(4usize), volatile: false, validate: None, broadcast: Broadcast::Never }),
        94u32 => Some(FuncDef { name: "UNIQUE", min_args: 1usize, max_args: Some(3usize), volatile: false, validate: None, broadcast: Broadcast::Never }),
        95u32 => Some(FuncDef { name: "FILTER", min_args: 2usize, max_args: Some(3usize), volatile: false, validate: None, broadcast: Broadcast::Never }),
        96u32 => Some(FuncDef { name: "SEQUENCE", min_args: 1usize, max_args: Some(4usize), volatile: false, validate: None, broadcast: Broadcast::Never }),
        97u32 => Some(FuncDef { name: "TRANSPOSE", min_args: 1usize, max_args: Some(1usize), volatile: false, validate: None, broadcast: Broadcast::Never }),
        98u32 => Some(FuncDef { name: "WEEKNUM", min_args: 1usize, max_args: Some(2usize), volatile: false, validate: None, broadcast: Broadcast::Never }),
        99u32 => Some(FuncDef { name: "YEARFRAC", min_args: 2usize, max_args: Some(3usize), volatile: false, validate: None, broadcast: Broadcast::Never }),
        100u32 => Some(FuncDef { name: "WORKDAY", min_args: 2usize, max_args: Some(3usize), volatile: false, validate: None, broadcast: Broadcast::Never }),
        101u32 => Some(FuncDef { name: "NETWORKDAYS", min_args: 2usize, max_args: Some(3usize), volatile: false, validate: None, broadcast: Broadcast::Never }),
        102u32 => Some(FuncDef { name: "HOUR", min_args: 1usize, max_args: Some(1usize), volatile: false, validate: None, broadcast: Broadcast::Never }),
        103u32 => Some(FuncDef { name: "MINUTE", min_args: 1usize, max_args: Some(1usize), volatile: false, validate: None, broadcast: Broadcast::Never }),
        104u32 => Some(FuncDef { name: "SECOND", min_args: 1usize, max_args: Some(1usize), volatile: false, validate: None, broadcast: Broadcast::Never }),
        105u32 => Some(FuncDef { name: "TIME", min_args: 3usize, max_args: Some(3usize), volatile: false, validate: None, broadcast: Broadcast::Never }),
        106u32 => Some(FuncDef { name: "GCD", min_args: 1usize, max_args: None, volatile: false, validate: None, broadcast: Broadcast::Never }),
        107u32 => Some(FuncDef { name: "LCM", min_args: 1usize, max_args: None, volatile: false, validate: None, broadcast: Broadcast::Never }),
        108u32 => Some(FuncDef { name: "FACT", min_args: 1usize, max_args: Some(1usize), volatile: false, validate: None, broadcast: Broadcast::Never }),
        109u32 => Some(FuncDef { name: "COMBIN", min_args: 2usize, max_args: Some(2usize), volatile: false, validate: None, broadcast: Broadcast::Never }),
        110u32 => Some(FuncDef { name: "STDEV", min_args: 1usize, max_args: None, volatile: false, validate: None, broadcast: Broadcast::Never }),
        111u32 => Some(FuncDef { name: "STDEVP", min_args: 1usize, max_args: None, volatile: false, validate: None, broadcast: Broadcast::Never }),
        112u32 => Some(FuncDef { name: "VAR", min_args: 1usize, max_args: None, volatile: false, validate: None, broadcast: Broadcast::Never }),
        113u32 => Some(FuncDef { name: "VARP", min_args: 1usize, max_args: None, volatile: false, validate: None, broadcast: Broadcast::Never }),
        114u32 => Some(FuncDef { name: "MODE", min_args: 1usize, max_args: None, volatile: false, validate: None, broadcast: Broadcast::Never }),
        115u32 => Some(FuncDef { name: "LARGE", min_args: 2usize, max_args: Some(2usize), volatile: false, validate: None, broadcast: Broadcast::Never }),
        116u32 => Some(FuncDef { name: "SMALL", min_args: 2usize, max_args: Some(2usize), volatile: false, validate: None, broadcast: Broadcast::Never }),
        117u32 => Some(FuncDef { name: "PERCENTILE", min_args: 2usize, max_args: Some(2usize), volatile: false, validate: None, broadcast: Broadcast::Never }),
        118u32 => Some(FuncDef { name: "QUARTILE", min_args: 2usize, max_args: Some(2usize), volatile: false, validate: None, broadcast: Broadcast::Never }),
        119u32 => Some(FuncDef { name: "SUBTOTAL", min_args: 2usize, max_args: None, volatile: false, validate: None, broadcast: Broadcast::Never }),
        120u32 => Some(FuncDef { name: "AGGREGATE", min_args: 3usize, max_args: None, volatile: false, validate: None, broadcast: Broadcast::Never }),
        121u32 => Some(FuncDef { name: "DSUM", min_args: 3usize, max_args: Some(3usize), volatile: false, validate: None, broadcast: Broadcast::Never }),
        122u32 => Some(FuncDef { name: "DAVERAGE", min_args: 3usize, max_args: Some(3usize), volatile: false, validate: None, broadcast: Broadcast::Never }),
        123u32 => Some(FuncDef { name: "DCOUNT", min_args: 3usize, max_args: Some(3usize), volatile: false, validate: None, broadcast: Broadcast::Never }),
        124u32 => Some(FuncDef { name: "DCOUNTA", min_args: 3usize, max_args: Some(3usize), volatile: false, validate: None, broadcast: Broadcast::Never }),
        125u32 => Some(FuncDef { name: "DMAX", min_args: 3usize, max_args: Some(3usize), volatile: false, validate: None, broadcast: Broadcast::Never }),
        126u32 => Some(FuncDef { name: "DMIN", min_args: 3usize, max_args: Some(3usize), volatile: false, validate: None, broadcast: Broadcast::Never }),
        127u32 => Some(FuncDef { name: "DGET", min_args: 3usize, max_args: Some(3usize), volatile: false, validate: None, broadcast: Broadcast::Never }),
        128u32 => Some(FuncDef { name: "CORREL", min_args: 2usize, max_args: Some(2usize), volatile: false, validate: None, broadcast: Broadcast::Never }),
        129u32 => Some(FuncDef { name: "RSQ", min_args: 2usize, max_args: Some(2usize), volatile: false, validate: None, broadcast: Broadcast::Never }),
        130u32 => Some(FuncDef { name: "SLOPE", min_args: 2usize, max_args: Some(2usize), volatile: false, validate: None, broadcast: Broadcast::Never }),
        131u32 => Some(FuncDef { name: "INTERCEPT", min_args: 2usize, max_args: Some(2usize), volatile: false, validate: None, broadcast: Broadcast::Never }),
        132u32 => Some(FuncDef { name: "FORECAST", min_args: 3usize, max_args: Some(3usize), volatile: false, validate: None, broadcast: Broadcast::Never }),
        133u32 => Some(FuncDef { name: "TREND", min_args: 1usize, max_args: Some(4usize), volatile: false, validate: None, broadcast: Broadcast::Never }),
        134u32 => Some(FuncDef { name: "TRUNC", min_args: 1usize, max_args: Some(2usize), volatile: false, validate: None, broadcast: Broadcast::Never }),
        135u32 => Some(FuncDef { name: "SIGN", min_args: 1usize, max_args: Some(1usize), volatile: false, validate: None, broadcast: Broadcast::Never }),
        136u32 => Some(FuncDef { name: "MROUND", min_args: 2usize, max_args: Some(2usize), volatile: false, validate: None, broadcast: Broadcast::Never }),
        137u32 => Some(FuncDef { name: "EVEN", min_args: 1usize, max_args: Some(1usize), volatile: false, validate: None, broadcast: Broadcast::Never }),
        138u32 => Some(FuncDef { name: "ODD", min_args: 1usize, max_args: Some(1usize), volatile: false, validate: None, broadcast: Broadcast::Never }),
        139u32 => Some(FuncDef { name: "SUMSQ", min_args: 1usize, max_args: None, volatile: false, validate: None, broadcast: Broadcast::Never }),
        140u32 => Some(FuncDef { name: "QUOTIENT", min_args: 2usize, max_args: Some(2usize), volatile: false, validate: None, broadcast: Broadcast::Never }),
        141u32 => Some(FuncDef { name: "XOR", min_args: 1usize, max_args: None, volatile: false, validate: None, broadcast: Broadcast::Never }),
        142u32 => Some(FuncDef { name: "TRUE", min_args: 0usize, max_args: Some(0usize), volatile: false, validate: None, broadcast: Broadcast::Never }),
        143u32 => Some(FuncDef { name: "FALSE", min_args: 0usize, max_args: Some(0usize), volatile: false, validate: None, broadcast: Broadcast::Never }),
        144u32 => Some(FuncDef { name: "AVERAGEA", min_args: 1usize, max_args: None, volatile: false, validate: None, broadcast: Broadcast::Never }),
        145u32 => Some(FuncDef { name: "MAXA", min_args: 1usize, max_args: None, volatile: false, validate: None, broadcast: Broadcast::Never }),
        146u32 => Some(FuncDef { name: "MINA", min_args: 1usize, max_args: None, volatile: false, validate: None, broadcast: Broadcast::Never }),
        147u32 => Some(FuncDef { name: "GEOMEAN", min_args: 1usize, max_args: None, volatile: false, validate: None, broadcast: Broadcast::Never }),
        148u32 => Some(FuncDef { name: "HARMEAN", min_args: 1usize, max_args: None, volatile: false, validate: None, broadcast: Broadcast::Never }),
        149u32 => Some(FuncDef { name: "AVEDEV", min_args: 1usize, max_args: None, volatile: false, validate: None, broadcast: Broadcast::Never }),
        150u32 => Some(FuncDef { name: "SKEW", min_args: 1usize, max_args: None, volatile: false, validate: None, broadcast: Broadcast::Never }),
        151u32 => Some(FuncDef { name: "KURT", min_args: 1usize, max_args: None, volatile: false, validate: None, broadcast: Broadcast::Never }),
        152u32 => Some(FuncDef { name: "PERCENTRANK", min_args: 2usize, max_args: Some(3usize), volatile: false, validate: None, broadcast: Broadcast::Never }),
        153u32 => Some(FuncDef { name: "FREQUENCY", min_args: 2usize, max_args: Some(2usize), volatile: false, validate: None, broadcast: Broadcast::Never }),
        154u32 => Some(FuncDef { name: "NPER", min_args: 3usize, max_args: Some(5usize), volatile: false, validate: None, broadcast: Broadcast::Never }),
        155u32 => Some(FuncDef { name: "RATE", min_args: 3usize, max_args: Some(6usize), volatile: false, validate: None, broadcast: Broadcast::Never }),
        156u32 => Some(FuncDef { name: "IPMT", min_args: 4usize, max_args: Some(6usize), volatile: false, validate: None, broadcast: Broadcast::Never }),
        157u32 => Some(FuncDef { name: "PPMT", min_args: 4usize, max_args: Some(6usize), volatile: false, validate: None, broadcast: Broadcast::Never }),
        158u32 => Some(FuncDef { name: "XNPV", min_args: 3usize, max_args: Some(3usize), volatile: false, validate: None, broadcast: Broadcast::Never }),
        159u32 => Some(FuncDef { name: "XIRR", min_args: 2usize, max_args: Some(3usize), volatile: false, validate: None, broadcast: Broadcast::Never }),
        160u32 => Some(FuncDef { name: "CONVERT", min_args: 3usize, max_args: Some(3usize), volatile: false, validate: None, broadcast: Broadcast::Never }),
        161u32 => Some(FuncDef { name: "ISFORMULA", min_args: 1usize, max_args: Some(1usize), volatile: false, validate: None, broadcast: Broadcast::Never }),
        _ => None,
    }
}

/// The registry row for a [`FuncId`], or `None` if the id is out of range.
pub fn def(id: FuncId) -> (r: Option<FuncDef>)
    ensures
        r == spec_def(id.0),
        r is Some <==> id.0 < FUNC_COUNT,
{
    match id.0 {
        0u32 => Some(FuncDef { name: "SUM", min_args: 1usize, max_args: None, volatile: false, validate: None, broadcast: Broadcast::Never }),
        1u32 => Some(FuncDef { name: "AVERAGE", min_args: 1usize, max_args: None, volatile: false, validate: None, broadcast: Broadcast::Never }),
        2u32 => Some(FuncDef { name: "COUNT", min_args: 1usize, max_args: None, volatile: false, validate: None, broadcast: Broadcast::Never }),
        3u32 => Some(FuncDef { name: "IF", min_args: 2usize, max_args: Some(3usize), volatile: false, validate: None, broadcast: Broadcast::Never }),
        4u32 => Some(FuncDef { name: "IFERROR", min_args: 2usize, max_args: Some(2usize), volatile: false, validate: None, broadcast: Broadcast::Never }),
        5u32 => Some(FuncDef { name: "AND", min_args: 1usize, max_args: None, volatile: false, validate: None, broadcast: Broadcast::Never }),
        6u32 => Some(FuncDef { name: "OR", min_args: 1usize, max_args: None, volatile: false, validate: None, broadcast: Broadcast::Never }),
        7u32 => Some(FuncDef { name: "ABS", min_args: 1usize, max_args: Some(1usize), volatile: false, validate: None, broadcast: Broadcast::Never }),
        8u32 => Some(FuncDef { name: "ROUND", min_args: 2usize, max_args: Some(2usize), volatile: false, validate: None, broadcast: Broadcast::Never }),
        9u32 => Some(FuncDef { name: "SUMIF", min_args: 2usize, max_args: Some(3usize), volatile: false, validate: None, broadcast: Broadcast::At(1usize) }),
        10u32 => Some(FuncDef { name: "SUMIFS", min_args: 3usize, max_args: None, volatile: false, validate: None, broadcast: Broadcast::Never }),
        11u32 => Some(FuncDef { name: "COUNTIF", min_args: 2usize, max_args: Some(2usize), volatile: false, validate: None, broadcast: Broadcast::At(1usize) }),
        12u32 => Some(FuncDef { name: "COUNTIFS", min_args: 2usize, max_args: None, volatile: false, validate: None, broadcast: Broadcast::Never }),
        13u32 => Some(FuncDef { name: "AVERAGEIF", min_args: 2usize, max_args: Some(3usize), volatile: false, validate: None, broadcast: Broadcast::At(1usize) }),
        14u32 => Some(FuncDef { name: "AVERAGEIFS", min_args: 3usize, max_args: None, volatile: false, validate: None, broadcast: Broadcast::Never }),
        15u32 => Some(FuncDef { name: "MINIFS", min_args: 3usize, max_args: None, volatile: false, validate: None, broadcast: Broadcast::Never }),
        16u32 => Some(FuncDef { name: "MAXIFS", min_args: 3usize, max_args: None, volatile: false, validate: None, broadcast: Broadcast::Never }),
        17u32 => Some(FuncDef { name: "PRODUCT", min_args: 1usize, max_args: None, volatile: false, validate: None, broadcast: Broadcast::Never }),
        18u32 => Some(FuncDef { name: "SUMPRODUCT", min_args: 1usize, max_args: None, volatile: false, validate: None, broadcast: Broadcast::Never }),
        19u32 => Some(FuncDef { name: "ROUNDUP", min_args: 2usize, max_args: Some(2usize), volatile: false, validate: None, broadcast: Broadcast::Never }),
        20u32 => Some(FuncDef { name: "ROUNDDOWN", min_args: 2usize, max_args: Some(2usize), volatile: false, validate: None, broadcast: Broadcast::Never }),
        21u32 => Some(FuncDef { name: "INT", min_args: 1usize, max_args: Some(1usize), volatile: false, validate: None, broadcast: Broadcast::Never }),
        22u32 => Some(FuncDef { name: "MOD", min_args: 2usize, max_args: Some(2usize), volatile: false, validate: None, broadcast: Broadcast::Never }),
        23u32 => Some(FuncDef { name: "POWER", min_args: 2usize, max_args: Some(2usize), volatile: false, validate: None, broadcast: Broadcast::Never }),
        24u32 => Some(FuncDef { name: "SQRT", min_args: 1usize, max_args: Some(1usize), volatile: false, validate: None, broadcast: Broadcast::Never }),
        25u32 => Some(FuncDef { name: "CEILING", min_args: 2usize, max_args: Some(2usize), volatile: false, validate: None, broadcast: Broadcast::Never }),
        26u32 => Some(FuncDef { name: "FLOOR", min_args: 2usize, max_args: Some(2usize), volatile: false, validate: None, broadcast: Broadcast::Never }),
        27u32 => Some(FuncDef { name: "MIN", min_args: 1usize, max_args: None, volatile: false, validate: None, broadcast: Broadcast::Never }),
        28u32 => Some(FuncDef { name: "MAX", min_args: 1usize, max_args: None, volatile: false, validate: None, broadcast: Broadcast::Never }),
        29u32 => Some(FuncDef { name: "MEDIAN", min_args: 1usize, max_args: None, volatile: false, validate: None, broadcast: Broadcast::Never }),
        30u32 => Some(FuncDef { name: "RANK", min_args: 2usize, max_args: Some(3usize), volatile: false, validate: None, broadcast: Broadcast::Never }),
        31u32 => Some(FuncDef { name: "COUNTA", min_args: 1usize, max_args: None, volatile: false, validate: None, broadcast: Broadcast::Never }),
        32u32 => Some(FuncDef { name: "COUNTBLANK", min_args: 1usize, max_args: Some(1usize), volatile: false, validate: None, broadcast: Broadcast::Never }),
        33u32 => Some(FuncDef { name: "IFS", min_args: 2usize, max_args: None, volatile: false, validate: None, broadcast: Broadcast::Never }),
        34u32 => Some(FuncDef { name: "NOT", min_args: 1usize, max_args: Some(1usize), volatile: false, validate: None, broadcast: Broadcast::Never }),
        35u32 => Some(FuncDef { name: "IFNA", min_args: 2usize, max_args: Some(2usize), volatile: false, validate: None, broadcast: Broadcast::Never }),
        36u32 => Some(FuncDef { name: "SWITCH", min_args: 3usize, max_args: None, volatile: false, validate: None, broadcast: Broadcast::Never }),
        37u32 => Some(FuncDef { name: "CONCAT", min_args: 1usize, max_args: None, volatile: false, validate: None, broadcast: Broadcast::Never }),
        38u32 => Some(FuncDef { name: "TEXTJOIN", min_args: 3usize, max_args: None, volatile: false, validate: None, broadcast: Broadcast::Never }),
        39u32 => Some(FuncDef { name: "LEFT", min_args: 1usize, max_args: Some(2usize), volatile: false, validate: None, broadcast: Broadcast::Every }),
        40u32 => Some(FuncDef { name: "RIGHT", min_args: 1usize, max_args: Some(2usize), volatile: false, validate: None, broadcast: Broadcast::Every }),
        41u32 => Some(FuncDef { name: "MID", min_args: 3usize, max_args: Some(3usize), volatile: false, validate: None, broadcast: Broadcast::Every }),
        42u32 => Some(FuncDef { name: "LEN", min_args: 1usize, max_args: Some(1usize), volatile: false, validate: None, broadcast: Broadcast::Every }),
        43u32 => Some(FuncDef { name: "FIND", min_args: 2usize, max_args: Some(3usize), volatile: false, validate: None, broadcast: Broadcast::Every }),
        44u32 => Some(FuncDef { name: "SEARCH", min_args: 2usize, max_args: Some(3usize), volatile: false, validate: None, broadcast: Broadcast::Every }),
        45u32 => Some(FuncDef { name: "SUBSTITUTE", min_args: 3usize, max_args: Some(4usize), volatile: false, validate: None, broadcast: Broadcast::Every }),
        46u32 => Some(FuncDef { name: "REPLACE", min_args: 4usize, max_args: Some(4usize), volatile: false, validate: None, broadcast: Broadcast::Never }),
        47u32 => Some(FuncDef { name: "TRIM", min_args: 1usize, max_args: Some(1usize), volatile: false, validate: None, broadcast: Broadcast::Every }),
        48u32 => Some(FuncDef { name: "UPPER", min_args: 1usize, max_args: Some(1usize), volatile: false, validate: None, broadcast: Broadcast::Every }),
        49u32 => Some(FuncDef { name: "LOWER", min_args: 1usize, max_args: Some(1usize), volatile: false, validate: None, broadcast: Broadcast::Every }),
        50u32 => Some(FuncDef { name: "TEXT", min_args: 2usize, max_args: Some(2usize), volatile: false, validate: Some(Validator::TextFormat), broadcast: Broadcast::Every }),
        51u32 => Some(FuncDef { name: "DATE", min_args: 3usize, max_args: Some(3usize), volatile: false, validate: None, broadcast: Broadcast::Never }),
        52u32 => Some(FuncDef { name: "YEAR", min_args: 1usize, max_args: Some(1usize), volatile: false, validate: None, broadcast: Broadcast::Never }),
        53u32 => Some(FuncDef { name: "MONTH", min_args: 1usize, max_args: Some(1usize), volatile: false, validate: None, broadcast: Broadcast::Never }),
        54u32 => Some(FuncDef { name: "DAY", min_args: 1usize, max_args: Some(1usize), volatile: false, validate: None, broadcast: Broadcast::Never }),
        55u32 => Some(FuncDef { name: "EDATE", min_args: 2usize, max_args: Some(2usize), volatile: false, validate: None, broadcast: Broadcast::Never }),
        56u32 => Some(FuncDef { name: "DATEDIF", min_args: 3usize, max_args: Some(3usize), volatile: false, validate: None, broadcast: Broadcast::Never }),
        57u32 => Some(FuncDef { name: "TODAY", min_args: 0usize, max_args: Some(0usize), volatile: true, validate: None, broadcast: Broadcast::Never }),
        58u32 => Some(FuncDef { name: "NOW", min_args: 0usize, max_args: Some(0usize), volatile: true, validate: None, broadcast: Broadcast::Never }),
        59u32 => Some(FuncDef { name: "EOMONTH", min_args: 2usize, max_args: Some(2usize), volatile: false, validate: None, broadcast: Broadcast::Never }),
        60u32 => Some(FuncDef { name: "DAYS", min_args: 2usize, max_args: Some(2usize), volatile: false, validate: None, broadcast: Broadcast::Never }),
        61u32 => Some(FuncDef { name: "WEEKDAY", min_args: 1usize, max_args: Some(2usize), volatile: false, validate: None, broadcast: Broadcast::Never }),
        62u32 => Some(FuncDef { name: "XLOOKUP", min_args: 3usize, max_args: Some(6usize), volatile: false, validate: None, broadcast: Broadcast::Never }),
        63u32 => Some(FuncDef { name: "INDEX", min_args: 2usize, max_args: Some(3usize), volatile: false, validate: None, broadcast: Broadcast::Never }),
        64u32 => Some(FuncDef { name: "MATCH", min_args: 2usize, max_args: Some(3usize), volatile: false, validate: None, broadcast: Broadcast::Never }),
        65u32 => Some(FuncDef { name: "VLOOKUP", min_args: 3usize, max_args: Some(4usize), volatile: false, validate: None, broadcast: Broadcast::Never }),
        66u32 => Some(FuncDef { name: "HLOOKUP", min_args: 3usize, max_args: Some(4usize), volatile: false, validate: None, broadcast: Broadcast::Never }),
        67u32 => Some(FuncDef { name: "LOOKUP", min_args: 2usize, max_args: Some(3usize), volatile: false, validate: None, broadcast: Broadcast::Never }),
        68u32 => Some(FuncDef { name: "XMATCH", min_args: 2usize, max_args: Some(3usize), volatile: false, validate: None, broadcast: Broadcast::Never }),
        69u32 => Some(FuncDef { name: "CHOOSE", min_args: 2usize, max_args: None, volatile: false, validate: None, broadcast: Broadcast::Never }),
        70u32 => Some(FuncDef { name: "ROW", min_args: 1usize, max_args: Some(1usize), volatile: false, validate: None, broadcast: Broadcast::Never }),
        71u32 => Some(FuncDef { name: "COLUMN", min_args: 1usize, max_args: Some(1usize), volatile: false, validate: None, broadcast: Broadcast::Never }),
        72u32 => Some(FuncDef { name: "ROWS", min_args: 1usize, max_args: Some(1usize), volatile: false, validate: None, broadcast: Broadcast::Never }),
        73u32 => Some(FuncDef { name: "COLUMNS", min_args: 1usize, max_args: Some(1usize), volatile: false, validate: None, broadcast: Broadcast::Never }),
        74u32 => Some(FuncDef { name: "INDIRECT", min_args: 1usize, max_args: Some(2usize), volatile: false, validate: Some(Validator::ReservedRef), broadcast: Broadcast::Never }),
        75u32 => Some(FuncDef { name: "OFFSET", min_args: 3usize, max_args: Some(5usize), volatile: false, validate: Some(Validator::ReservedRef), broadcast: Broadcast::Never }),
        76u32 => Some(FuncDef { name: "ISBLANK", min_args: 1usize, max_args: Some(1usize), volatile: false, validate: None, broadcast: Broadcast::Never }),
        77u32 => Some(FuncDef { name: "ISNUMBER", min_args: 1usize, max_args: Some(1usize), volatile: false, validate: None, broadcast: Broadcast::Never }),
        78u32 => Some(FuncDef { name: "ISTEXT", min_args: 1usize, max_args: Some(1usize), volatile: false, validate: None, broadcast: Broadcast::Never }),
        79u32 => Some(FuncDef { name: "ISNONTEXT", min_args: 1usize, max_args: Some(1usize), volatile: false, validate: None, broadcast: Broadcast::Never }),
        80u32 => Some(FuncDef { name: "ISLOGICAL", min_args: 1usize, max_args: Some(1usize), volatile: false, validate: None, broadcast: Broadcast::Never }),
        81u32 => Some(FuncDef { name: "ISERROR", min_args: 1usize, max_args: Some(1usize), volatile: false, validate: None, broadcast: Broadcast::Never }),
        82u32 => Some(FuncDef { name: "ISERR", min_args: 1usize, max_args: Some(1usize), volatile: false, validate: None, broadcast: Broadcast::Never }),
        83u32 => Some(FuncDef { name: "ISNA", min_args: 1usize, max_args: Some(1usize), volatile: false, validate: None, broadcast: Broadcast::Never }),
        84u32 => Some(FuncDef { name: "NA", min_args: 0usize, max_args: Some(0usize), volatile: false, validate: None, broadcast: Broadcast::Never }),
        85u32 => Some(FuncDef { name: "TYPE", min_args: 1usize, max_args: Some(1usize), volatile: false, validate: None, broadcast: Broadcast::Never }),
        86u32 => Some(FuncDef { name: "N", min_args: 1usize, max_args: Some(1usize), volatile: false, validate: None, broadcast: Broadcast::Never }),
        87u32 => Some(FuncDef { name: "ISEVEN", min_args: 1usize, max_args: Some(1usize), volatile: false, validate: None, broadcast: Broadcast::Never }),
        88u32 => Some(FuncDef { name: "ISODD", min_args: 1usize, max_args: Some(1usize), volatile: false, validate: None, broadcast: Broadcast::Never }),
        89u32 => Some(FuncDef { name: "PMT", min_args: 3usize, max_args: Some(5usize), volatile: false, validate: None, broadcast: Broadcast::Never }),
        90u32 => Some(FuncDef { name: "FV", min_args: 3usize, max_args: Some(5usize), volatile: false, validate: None, broadcast: Broadcast::Never }),
        91u32 => Some(FuncDef { name: "NPV", min_args: 2usize, max_args: None, volatile: false, validate: None, broadcast: Broadcast::Never }),
        92u32 => Some(FuncDef { name: "IRR", min_args: 1usize, max_args: Some(2usize), volatile: false, validate: None, broadcast: Broadcast::Never }),
        93u32 => Some(FuncDef { name: "SORT", min_args: 1usize, max_args: Some(4usize), volatile: false, validate: None, broadcast: Broadcast::Never }),
        94u32 => Some(FuncDef { name: "UNIQUE", min_args: 1usize, max_args: Some(3usize), volatile: false, validate: None, broadcast: Broadcast::Never }),
        95u32 => Some(FuncDef { name: "FILTER", min_args: 2usize, max_args: Some(3usize), volatile: false, validate: None, broadcast: Broadcast::Never }),
        96u32 => Some(FuncDef { name: "SEQUENCE", min_args: 1usize, max_args: Some(4usize), volatile: false, validate: None, broadcast: Broadcast::Never }),
        97u32 => Some(FuncDef { name: "TRANSPOSE", min_args: 1usize, max_args: Some(1usize), volatile: false, validate: None, broadcast: Broadcast::Never }),
        98u32 => Some(FuncDef { name: "WEEKNUM", min_args: 1usize, max_args: Some(2usize), volatile: false, validate: None, broadcast: Broadcast::Never }),
        99u32 => Some(FuncDef { name: "YEARFRAC", min_args: 2usize, max_args: Some(3usize), volatile: false, validate: None, broadcast: Broadcast::Never }),
        100u32 => Some(FuncDef { name: "WORKDAY", min_args: 2usize, max_args: Some(3usize), volatile: false, validate: None, broadcast: Broadcast::Never }),
        101u32 => Some(FuncDef { name: "NETWORKDAYS", min_args: 2usize, max_args: Some(3usize), volatile: false, validate: None, broadcast: Broadcast::Never }),
        102u32 => Some(FuncDef { name: "HOUR", min_args: 1usize, max_args: Some(1usize), volatile: false, validate: None, broadcast: Broadcast::Never }),
        103u32 => Some(FuncDef { name: "MINUTE", min_args: 1usize, max_args: Some(1usize), volatile: false, validate: None, broadcast: Broadcast::Never }),
        104u32 => Some(FuncDef { name: "SECOND", min_args: 1usize, max_args: Some(1usize), volatile: false, validate: None, broadcast: Broadcast::Never }),
        105u32 => Some(FuncDef { name: "TIME", min_args: 3usize, max_args: Some(3usize), volatile: false, validate: None, broadcast: Broadcast::Never }),
        106u32 => Some(FuncDef { name: "GCD", min_args: 1usize, max_args: None, volatile: false, validate: None, broadcast: Broadcast::Never }),
        107u32 => Some(FuncDef { name: "LCM", min_args: 1usize, max_args: None, volatile: false, validate: None, broadcast: Broadcast::Never }),
        108u32 => Some(FuncDef { name: "FACT", min_args: 1usize, max_args: Some(1usize), volatile: false, validate: None, broadcast: Broadcast::Never }),
        109u32 => Some(FuncDef { name: "COMBIN", min_args: 2usize, max_args: Some(2usize), volatile: false, validate: None, broadcast: Broadcast::Never }),
        110u32 => Some(FuncDef { name: "STDEV", min_args: 1usize, max_args: None, volatile: false, validate: None, broadcast: Broadcast::Never }),
        111u32 => Some(FuncDef { name: "STDEVP", min_args: 1usize, max_args: None, volatile: false, validate: None, broadcast: Broadcast::Never }),
        112u32 => Some(FuncDef { name: "VAR", min_args: 1usize, max_args: None, volatile: false, validate: None, broadcast: Broadcast::Never }),
        113u32 => Some(FuncDef { name: "VARP", min_args: 1usize, max_args: None, volatile: false, validate: None, broadcast: Broadcast::Never }),
        114u32 => Some(FuncDef { name: "MODE", min_args: 1usize, max_args: None, volatile: false, validate: None, broadcast: Broadcast::Never }),
        115u32 => Some(FuncDef { name: "LARGE", min_args: 2usize, max_args: Some(2usize), volatile: false, validate: None, broadcast: Broadcast::Never }),
        116u32 => Some(FuncDef { name: "SMALL", min_args: 2usize, max_args: Some(2usize), volatile: false, validate: None, broadcast: Broadcast::Never }),
        117u32 => Some(FuncDef { name: "PERCENTILE", min_args: 2usize, max_args: Some(2usize), volatile: false, validate: None, broadcast: Broadcast::Never }),
        118u32 => Some(FuncDef { name: "QUARTILE", min_args: 2usize, max_args: Some(2usize), volatile: false, validate: None, broadcast: Broadcast::Never }),
        119u32 => Some(FuncDef { name: "SUBTOTAL", min_args: 2usize, max_args: None, volatile: false, validate: None, broadcast: Broadcast::Never }),
        120u32 => Some(FuncDef { name: "AGGREGATE", min_args: 3usize, max_args: None, volatile: false, validate: None, broadcast: Broadcast::Never }),
        121u32 => Some(FuncDef { name: "DSUM", min_args: 3usize, max_args: Some(3usize), volatile: false, validate: None, broadcast: Broadcast::Never }),
        122u32 => Some(FuncDef { name: "DAVERAGE", min_args: 3usize, max_args: Some(3usize), volatile: false, validate: None, broadcast: Broadcast::Never }),
        123u32 => Some(FuncDef { name: "DCOUNT", min_args: 3usize, max_args: Some(3usize), volatile: false, validate: None, broadcast: Broadcast::Never }),
        124u32 => Some(FuncDef { name: "DCOUNTA", min_args: 3usize, max_args: Some(3usize), volatile: false, validate: None, broadcast: Broadcast::Never }),
        125u32 => Some(FuncDef { name: "DMAX", min_args: 3usize, max_args: Some(3usize), volatile: false, validate: None, broadcast: Broadcast::Never }),
        126u32 => Some(FuncDef { name: "DMIN", min_args: 3usize, max_args: Some(3usize), volatile: false, validate: None, broadcast: Broadcast::Never }),
        127u32 => Some(FuncDef { name: "DGET", min_args: 3usize, max_args: Some(3usize), volatile: false, validate: None, broadcast: Broadcast::Never }),
        128u32 => Some(FuncDef { name: "CORREL", min_args: 2usize, max_args: Some(2usize), volatile: false, validate: None, broadcast: Broadcast::Never }),
        129u32 => Some(FuncDef { name: "RSQ", min_args: 2usize, max_args: Some(2usize), volatile: false, validate: None, broadcast: Broadcast::Never }),
        130u32 => Some(FuncDef { name: "SLOPE", min_args: 2usize, max_args: Some(2usize), volatile: false, validate: None, broadcast: Broadcast::Never }),
        131u32 => Some(FuncDef { name: "INTERCEPT", min_args: 2usize, max_args: Some(2usize), volatile: false, validate: None, broadcast: Broadcast::Never }),
        132u32 => Some(FuncDef { name: "FORECAST", min_args: 3usize, max_args: Some(3usize), volatile: false, validate: None, broadcast: Broadcast::Never }),
        133u32 => Some(FuncDef { name: "TREND", min_args: 1usize, max_args: Some(4usize), volatile: false, validate: None, broadcast: Broadcast::Never }),
        134u32 => Some(FuncDef { name: "TRUNC", min_args: 1usize, max_args: Some(2usize), volatile: false, validate: None, broadcast: Broadcast::Never }),
        135u32 => Some(FuncDef { name: "SIGN", min_args: 1usize, max_args: Some(1usize), volatile: false, validate: None, broadcast: Broadcast::Never }),
        136u32 => Some(FuncDef { name: "MROUND", min_args: 2usize, max_args: Some(2usize), volatile: false, validate: None, broadcast: Broadcast::Never }),
        137u32 => Some(FuncDef { name: "EVEN", min_args: 1usize, max_args: Some(1usize), volatile: false, validate: None, broadcast: Broadcast::Never }),
        138u32 => Some(FuncDef { name: "ODD", min_args: 1usize, max_args: Some(1usize), volatile: false, validate: None, broadcast: Broadcast::Never }),
        139u32 => Some(FuncDef { name: "SUMSQ", min_args: 1usize, max_args: None, volatile: false, validate: None, broadcast: Broadcast::Never }),
        140u32 => Some(FuncDef { name: "QUOTIENT", min_args: 2usize, max_args: Some(2usize), volatile: false, validate: None, broadcast: Broadcast::Never }),
        141u32 => Some(FuncDef { name: "XOR", min_args: 1usize, max_args: None, volatile: false, validate: None, broadcast: Broadcast::Never }),
        142u32 => Some(FuncDef { name: "TRUE", min_args: 0usize, max_args: Some(0usize), volatile: false, validate: None, broadcast: Broadcast::Never }),
        143u32 => Some(FuncDef { name: "FALSE", min_args: 0usize, max_args: Some(0usize), volatile: false, validate: None, broadcast: Broadcast::Never }),
        144u32 => Some(FuncDef { name: "AVERAGEA", min_args: 1usize, max_args: None, volatile: false, validate: None, broadcast: Broadcast::Never }),
        145u32 => Some(FuncDef { name: "MAXA", min_args: 1usize, max_args: None, volatile: false, validate: None, broadcast: Broadcast::Never }),
        146u32 => Some(FuncDef { name: "MINA", min_args: 1usize, max_args: None, volatile: false, validate: None, broadcast: Broadcast::Never }),
        147u32 => Some(FuncDef { name: "GEOMEAN", min_args: 1usize, max_args: None, volatile: false, validate: None, broadcast: Broadcast::Never }),
        148u32 => Some(FuncDef { name: "HARMEAN", min_args: 1usize, max_args: None, volatile: false, validate: None, broadcast: Broadcast::Never }),
        149u32 => Some(FuncDef { name: "AVEDEV", min_args: 1usize, max_args: None, volatile: false, validate: None, broadcast: Broadcast::Never }),
        150u32 => Some(FuncDef { name: "SKEW", min_args: 1usize, max_args: None, volatile: false, validate: None, broadcast: Broadcast::Never }),
        151u32 => Some(FuncDef { name: "KURT", min_args: 1usize, max_args: None, volatile: false, validate: None, broadcast: Broadcast::Never }),
        152u32 => Some(FuncDef { name: "PERCENTRANK", min_args: 2usize, max_args: Some(3usize), volatile: false, validate: None, broadcast: Broadcast::Never }),
        153u32 => Some(FuncDef { name: "FREQUENCY", min_args: 2usize, max_args: Some(2usize), volatile: false, validate: None, broadcast: Broadcast::Never }),
        154u32 => Some(FuncDef { name: "NPER", min_args: 3usize, max_args: Some(5usize), volatile: false, validate: None, broadcast: Broadcast::Never }),
        155u32 => Some(FuncDef { name: "RATE", min_args: 3usize, max_args: Some(6usize), volatile: false, validate: None, broadcast: Broadcast::Never }),
        156u32 => Some(FuncDef { name: "IPMT", min_args: 4usize, max_args: Some(6usize), volatile: false, validate: None, broadcast: Broadcast::Never }),
        157u32 => Some(FuncDef { name: "PPMT", min_args: 4usize, max_args: Some(6usize), volatile: false, validate: None, broadcast: Broadcast::Never }),
        158u32 => Some(FuncDef { name: "XNPV", min_args: 3usize, max_args: Some(3usize), volatile: false, validate: None, broadcast: Broadcast::Never }),
        159u32 => Some(FuncDef { name: "XIRR", min_args: 2usize, max_args: Some(3usize), volatile: false, validate: None, broadcast: Broadcast::Never }),
        160u32 => Some(FuncDef { name: "CONVERT", min_args: 3usize, max_args: Some(3usize), volatile: false, validate: None, broadcast: Broadcast::Never }),
        161u32 => Some(FuncDef { name: "ISFORMULA", min_args: 1usize, max_args: Some(1usize), volatile: false, validate: None, broadcast: Broadcast::Never }),
        _ => None,
    }
}

/// Every registry row, indexed by [`FuncId`].
pub fn funcs() -> (r: Vec<FuncDef>)
    ensures
        r@.len() == FUNC_COUNT,
        forall|i: int| 0 <= i < FUNC_COUNT ==> spec_def(i as u32) == Some(#[trigger] r@[i]),
{
    let mut r: Vec<FuncDef> = Vec::new();
    let mut i: u32 = 0;
    while i < FUNC_COUNT
        invariant
            i <= FUNC_COUNT,
            r@.len() == i,
            forall|j: int| 0 <= j < i ==> spec_def(j as u32) == Some(#[trigger] r@[j]),
        decreases FUNC_COUNT - i,
    {
        match def(FuncId(i)) {
            Some(f) => r.push(f),
            None => {},
        }
        i = i + 1;
    }
    r
}

/// Whether a row's name equals `name` ignoring ASCII case.
pub open spec fn name_matches(f: FuncDef, name: Seq<char>) -> bool {
    lower_seq(f.name@) == lower_seq(name)
}

/// Resolve a function name (case-insensitively) to its [`FuncId`]: the first row whose name
/// matches, or `None` if no row does.
pub fn lookup(name: &str) -> (r: Option<FuncId>)
    ensures
        r matches Some(id) ==> id.0 < FUNC_COUNT && name_matches(spec_def(id.0)->0, name@)
            && forall|j: u32| j < id.0 ==> !name_matches(#[trigger] spec_def(j)->0, name@),
        r is None ==> forall|j: u32| j < FUNC_COUNT ==> !name_matches(#[trigger] spec_def(j)->0, name@),
{
    let mut i: u32 = 0;
    while i < FUNC_COUNT
        invariant
            i <= FUNC_COUNT,
            forall|j: u32| j < i ==> !name_matches(#[trigger] spec_def(j)->0, name@),
        decreases FUNC_COUNT - i,
    {
        match def(FuncId(i)) {
            Some(f) => {
                if eq_ignore_case(f.name, name) {
                    return Some(FuncId(i));
                }
            },
            None => {},
        }
        i = i + 1;
    }
    None
}

/// Whether every registry name differs, ignoring ASCII case, from every earlier row's name — so
/// that [`lookup`] of a row's own name finds that row.
pub open spec fn names_distinct() -> bool {
    forall|i: u32, j: u32| j < i < FUNC_COUNT ==> !name_matches(#[trigger] spec_def(j)->0, (#[trigger] spec_def(i)->0).name@)
}

/// Check that [`lookup`] and [`def`] round-trip on every row: looking up a row's own name gives
/// that row's id. True exactly when the names are distinct ignoring case.
pub fn names_round_trip() -> (r: bool)
    ensures
        r == names_distinct(),
{
    let mut i: u32 = 0;
    while i < FUNC_COUNT
        invariant
            i <= FUNC_COUNT,
            forall|a: u32, b: u32| b < a < i ==> !name_matches(#[trigger] spec_def(b)->0, (#[trigger] spec_def(a)->0).name@),
        decreases FUNC_COUNT - i,
    {
        let f = def(FuncId(i)).unwrap();
        match lookup(f.name) {
            Some(id) => {
                if id.0 != i {
                    proof {
                        assert(name_matches(spec_def(i)->0, f.name@));
                        assert(id.0 <= i);
                        assert(name_matches(spec_def(id.0)->0, spec_def(i)->0.name@));
                    }
                    return false;
                }
            },
            None => {
                proof {
                    assert(name_matches(spec_def(i)->0, f.name@));
                }
                return false;
            },
        }
        i = i + 1;
    }
    true
}

/// What a call evaluates to without running its function: `#NAME?` for an id the registry does
/// not hold, `#VALUE!` for an argument count outside the row's bounds, `None` otherwise.
pub open spec fn static_call_outcome<N>(id: FuncId, n: nat) -> Option<Value<N>> {
    match spec_def(id.0) {
        None => Some(Value::Error(ErrKind::Name)),
        Some(f) => if spec_arity_ok(f, n) { None } else { Some(Value::Error(ErrKind::Value)) },
    }
}

/// Whether a call of the row with a given id on `n` arguments runs that row's function on its
/// arguments as they stand: the id names a row, the count is within its bounds, and the row maps no
/// argument element-wise.
pub open spec fn runs_as_stated(id: FuncId, n: nat) -> bool {
    spec_def(id.0) matches Some(f) && spec_arity_ok(f, n) && f.broadcast is Never
}

/// Evaluate a `Call`. An out-of-range id is `#NAME?` and an off-arity call `#VALUE!` (only a
/// hand-built tree can hold either — the parser gates both); otherwise the call goes through
/// implicit array evaluation ([`array::eval_call`]) to the row's function.
pub fn dispatch<N: Number, R: Resolver<N>>(id: FuncId, ctx: &mut EvalCtx<R>, args: &[Expr<N>]) -> (r: Value<N>)
    ensures
        restored(*old(ctx), *final(ctx)),
        static_call_outcome::<N>(id, args@.len()) matches Some(v) ==> r == v,
        runs_as_stated(id, args@.len()) ==> row_outcome(id, *old(ctx), args@, r) && row_reads(id, *old(ctx), args@, r),
        match spec_def(id.0) {
            Some(f) => spec_arity_ok(f, args@.len()) && !(f.broadcast is Never)
                ==> exists|vals: Seq<Value<N>>| #[trigger] array::broadcast_holds(id, f.broadcast, *old(ctx), args@, vals, r),
            None => true,
        },
    decreases args_size(args@), 13nat,
{
    match def(id) {
        None => Value::Error(ErrKind::Name),
        Some(f) => {
            if !f.arity_ok(args.len()) {
                return Value::Error(ErrKind::Value);
            }
            array::eval_call(f, id, ctx, args)
        },
    }
}

/// What the row with a given id is stated to give on arguments `args` in context `ctx`: the
/// statement of that row's function.
pub open spec fn row_outcome<'r, N: Number, R: Resolver<N>>(id: FuncId, ctx: EvalCtx<'r, R>, args: Seq<Expr<N>>, r: Value<N>) -> bool {
    match id.0 {
        0u32 => sum_gives(ctx, args, r),
        1u32 => average_gives(ctx, args, r),
        2u32 => count_gives(ctx, args, r),
        3u32 => if_fn_gives(ctx, args, r),
        4u32 => iferror_gives(ctx, args, r),
        5u32 => and_fn_gives(ctx, args, r),
        6u32 => or_fn_gives(ctx, args, r),
        7u32 => abs_fn_gives(ctx, args, r),
        8u32 => round_fn_gives(ctx, args, r),
        9u32 => sumif_gives(ctx, args, r),
        10u32 => sumifs_gives(ctx, args, r),
        11u32 => countif_gives(ctx, args, r),
        12u32 => countifs_gives(ctx, args, r),
        13u32 => averageif_gives(ctx, args, r),
        14u32 => averageifs_gives(ctx, args, r),
        15u32 => minifs_gives(ctx, args, r),
        16u32 => maxifs_gives(ctx, args, r),
        17u32 => product_gives(ctx, args, r),
        18u32 => sumproduct_gives(ctx, args, r),
        19u32 => roundup_gives(ctx, args, r),
        20u32 => rounddown_gives(ctx, args, r),
        21u32 => int_fn_gives(ctx, args, r),
        22u32 => mod_fn_gives(ctx, args, r),
        23u32 => power_fn_gives(ctx, args, r),
        24u32 => sqrt_fn_gives(ctx, args, r),
        25u32 => ceiling_fn_gives(ctx, args, r),
        26u32 => floor_fn_gives(ctx, args, r),
        27u32 => min_fn_gives(ctx, args, r),
        28u32 => max_fn_gives(ctx, args, r),
        29u32 => median_fn_gives(ctx, args, r),
        30u32 => rank_fn_gives(ctx, args, r),
        31u32 => counta_gives(ctx, args, r),
        32u32 => countblank_gives(ctx, args, r),
        33u32 => ifs_fn_gives(ctx, args, r),
        34u32 => not_fn_gives(ctx, args, r),
        35u32 => ifna_gives(ctx, args, r),
        36u32 => switch_fn_gives(ctx, args, r),
        37u32 => concat_fn_gives(ctx, args, r),
        38u32 => textjoin_fn_gives(ctx, args, r),
        39u32 => left_fn_gives(ctx, args, r),
        40u32 => right_fn_gives(ctx, args, r),
        41u32 => mid_fn_gives(ctx, args, r),
        42u32 => len_fn_gives(ctx, args, r),
        43u32 => find_fn_gives(ctx, args, r),
        44u32 => search_fn_gives(ctx, args, r),
        45u32 => substitute_fn_gives(ctx, args, r),
        46u32 => replace_fn_gives(ctx, args, r),
        47u32 => trim_fn_gives(ctx, args, r),
        48u32 => upper_fn_gives(ctx, args, r),
        49u32 => lower_fn_gives(ctx, args, r),
        50u32 => text_fn_gives(ctx, args, r),
        51u32 => date_fn_gives(ctx, args, r),
        52u32 => year_fn_gives(ctx, args, r),
        53u32 => month_fn_gives(ctx, args, r),
        54u32 => day_fn_gives(ctx, args, r),
        55u32 => edate_fn_gives(ctx, args, r),
        56u32 => datedif_fn_gives(ctx, args, r),
        57u32 => today_fn_gives(ctx, args, r),
        58u32 => now_fn_gives(ctx, args, r),
        59u32 => eomonth_fn_gives(ctx, args, r),
        60u32 => days_fn_gives(ctx, args, r),
        61u32 => weekday_fn_gives(ctx, args, r),
        62u32 => xlookup_gives(ctx, args, r),
        63u32 => index_fn_gives(ctx, args, r),
        64u32 => match_fn_gives(ctx, args, r),
        65u32 => vlookup_gives(ctx, args, r),
        66u32 => hlookup_gives(ctx, args, r),
        67u32 => lookup_fn_gives(ctx, args, r),
        68u32 => xmatch_gives(ctx, args, r),
        69u32 => choose_fn_gives(ctx, args, r),
        70u32 => row_fn_gives(ctx, args, r),
        71u32 => column_fn_gives(ctx, args, r),
        72u32 => rows_fn_gives(ctx, args, r),
        73u32 => columns_fn_gives(ctx, args, r),
        74u32 => reserved_ref_eval_gives(ctx, args, r),
        75u32 => reserved_ref_eval_gives(ctx, args, r),
        76u32 => isblank_gives(ctx, args, r),
        77u32 => isnumber_gives(ctx, args, r),
        78u32 => istext_gives(ctx, args, r),
        79u32 => isnontext_gives(ctx, args, r),
        80u32 => islogical_gives(ctx, args, r),
        81u32 => iserror_gives(ctx, args, r),
        82u32 => iserr_gives(ctx, args, r),
        83u32 => isna_gives(ctx, args, r),
        84u32 => na_fn_gives(ctx, args, r),
        85u32 => type_fn_gives(ctx, args, r),
        86u32 => n_fn_gives(ctx, args, r),
        87u32 => iseven_fn_gives(ctx, args, r),
        88u32 => isodd_fn_gives(ctx, args, r),
        89u32 => pmt_fn_gives(ctx, args, r),
        90u32 => fv_fn_gives(ctx, args, r),
        91u32 => npv_fn_gives(ctx, args, r),
        92u32 => irr_fn_gives(ctx, args, r),
        93u32 => sort_fn_gives(ctx, args, r),
        94u32 => unique_fn_gives(ctx, args, r),
        95u32 => filter_fn_gives(ctx, args, r),
        96u32 => sequence_fn_gives(ctx, args, r),
        97u32 => transpose_fn_gives(ctx, args, r),
        98u32 => weeknum_fn_gives(ctx, args, r),
        99u32 => yearfrac_fn_gives(ctx, args, r),
        100u32 => workday_fn_gives(ctx, args, r),
        101u32 => networkdays_fn_gives(ctx, args, r),
        102u32 => hour_fn_gives(ctx, args, r),
        103u32 => minute_fn_gives(ctx, args, r),
        104u32 => second_fn_gives(ctx, args, r),
        105u32 => time_fn_gives(ctx, args, r),
        106u32 => gcd_fn_gives(ctx, args, r),
        107u32 => lcm_fn_gives(ctx, args, r),
        108u32 => fact_fn_gives(ctx, args, r),
        109u32 => combin_fn_gives(ctx, args, r),
        110u32 => stdev_fn_gives(ctx, args, r),
        111u32 => stdevp_fn_gives(ctx, args, r),
        112u32 => var_fn_gives(ctx, args, r),
        113u32 => varp_fn_gives(ctx, args, r),
        114u32 => mode_fn_gives(ctx, args, r),
        115u32 => large_fn_gives(ctx, args, r),
        116u32 => small_fn_gives(ctx, args, r),
        117u32 => percentile_fn_gives(ctx, args, r),
        118u32 => quartile_fn_gives(ctx, args, r),
        119u32 => subtotal_fn_gives(ctx, args, r),
        120u32 => aggregate_fn_gives(ctx, args, r),
        121u32 => dsum_gives(ctx, args, r),
        122u32 => daverage_gives(ctx, args, r),
        123u32 => dcount_gives(ctx, args, r),
        124u32 => dcounta_gives(ctx, args, r),
        125u32 => dmax_gives(ctx, args, r),
        126u32 => dmin_gives(ctx, args, r),
        127u32 => dget_gives(ctx, args, r),
        128u32 => correl_fn_gives(ctx, args, r),
        129u32 => rsq_fn_gives(ctx, args, r),
        130u32 => slope_fn_gives(ctx, args, r),
        131u32 => intercept_fn_gives(ctx, args, r),
        132u32 => forecast_fn_gives(ctx, args, r),
        133u32 => trend_fn_gives(ctx, args, r),
        134u32 => trunc_fn_gives(ctx, args, r),
        135u32 => sign_fn_gives(ctx, args, r),
        136u32 => mround_fn_gives(ctx, args, r),
        137u32 => even_fn_gives(ctx, args, r),
        138u32 => odd_fn_gives(ctx, args, r),
        139u32 => sumsq_gives(ctx, args, r),
        140u32 => quotient_fn_gives(ctx, args, r),
        141u32 => xor_fn_gives(ctx, args, r),
        142u32 => true_fn_gives(ctx, args, r),
        143u32 => false_fn_gives(ctx, args, r),
        144u32 => averagea_fn_gives(ctx, args, r),
        145u32 => maxa_fn_gives(ctx, args, r),
        146u32 => mina_fn_gives(ctx, args, r),
        147u32 => geomean_fn_gives(ctx, args, r),
        148u32 => harmean_fn_gives(ctx, args, r),
        149u32 => avedev_fn_gives(ctx, args, r),
        150u32 => skew_fn_gives(ctx, args, r),
        151u32 => kurt_fn_gives(ctx, args, r),
        152u32 => percentrank_inc_fn_gives(ctx, args, r),
        153u32 => frequency_fn_gives(ctx, args, r),
        154u32 => nper_fn_gives(ctx, args, r),
        155u32 => rate_fn_gives(ctx, args, r),
        156u32 => ipmt_fn_gives(ctx, args, r),
        157u32 => ppmt_fn_gives(ctx, args, r),
        158u32 => xnpv_fn_gives(ctx, args, r),
        159u32 => xirr_fn_gives(ctx, args, r),
        160u32 => convert_fn_gives(ctx, args, r),
        161u32 => isformula_fn_gives(ctx, args, r),
        _ => r == Value::<N>::Error(ErrKind::Name),
    }
}

/// What the row with a given id is stated to give for the values its arguments evaluate to in
/// `ctx` (rows that state nothing beyond [`row_outcome`] give `true`).
pub open spec fn row_reads<'r, N: Number, R: Resolver<N>>(id: FuncId, ctx: EvalCtx<'r, R>, args: Seq<Expr<N>>, r: Value<N>) -> bool {
    match id.0 {
        0u32 => sum_reads(ctx, args, r),
        1u32 => average_reads(ctx, args, r),
        2u32 => count_reads(ctx, args, r),
        3u32 => if_fn_reads(ctx, args, r),
        4u32 => iferror_reads(ctx, args, r),
        5u32 => and_fn_reads(ctx, args, r),
        6u32 => or_fn_reads(ctx, args, r),
        7u32 => abs_fn_reads(ctx, args, r),
        8u32 => round_fn_reads(ctx, args, r),
        10u32 => sumifs_reads(ctx, args, r),
        12u32 => countifs_reads(ctx, args, r),
        14u32 => averageifs_reads(ctx, args, r),
        15u32 => minifs_reads(ctx, args, r),
        16u32 => maxifs_reads(ctx, args, r),
        17u32 => product_reads(ctx, args, r),
        19u32 => roundup_reads(ctx, args, r),
        20u32 => rounddown_reads(ctx, args, r),
        21u32 => int_fn_reads(ctx, args, r),
        22u32 => mod_fn_reads(ctx, args, r),
        23u32 => power_fn_reads(ctx, args, r),
        24u32 => sqrt_fn_reads(ctx, args, r),
        25u32 => ceiling_fn_reads(ctx, args, r),
        26u32 => floor_fn_reads(ctx, args, r),
        27u32 => min_fn_reads(ctx, args, r),
        28u32 => max_fn_reads(ctx, args, r),
        29u32 => median_fn_reads(ctx, args, r),
        30u32 => rank_fn_reads(ctx, args, r),
        31u32 => counta_reads(ctx, args, r),
        34u32 => not_fn_reads(ctx, args, r),
        35u32 => ifna_reads(ctx, args, r),
        42u32 => len_fn_reads(ctx, args, r),
        45u32 => substitute_fn_reads(ctx, args, r),
        47u32 => trim_fn_reads(ctx, args, r),
        48u32 => upper_fn_reads(ctx, args, r),
        49u32 => lower_fn_reads(ctx, args, r),
        52u32 => year_fn_reads(ctx, args, r),
        53u32 => month_fn_reads(ctx, args, r),
        54u32 => day_fn_reads(ctx, args, r),
        56u32 => datedif_fn_reads(ctx, args, r),
        62u32 => xlookup_reads(ctx, args, r),
        76u32 => isblank_reads(ctx, args, r),
        77u32 => isnumber_reads(ctx, args, r),
        78u32 => istext_reads(ctx, args, r),
        79u32 => isnontext_reads(ctx, args, r),
        80u32 => islogical_reads(ctx, args, r),
        81u32 => iserror_reads(ctx, args, r),
        82u32 => iserr_reads(ctx, args, r),
        83u32 => isna_reads(ctx, args, r),
        85u32 => type_fn_reads(ctx, args, r),
        86u32 => n_fn_reads(ctx, args, r),
        87u32 => iseven_fn_reads(ctx, args, r),
        88u32 => isodd_fn_reads(ctx, args, r),
        92u32 => irr_fn_reads(ctx, args, r),
        93u32 => sort_fn_reads(ctx, args, r),
        94u32 => unique_fn_reads(ctx, args, r),
        95u32 => filter_fn_reads(ctx, args, r),
        102u32 => hour_fn_reads(ctx, args, r),
        103u32 => minute_fn_reads(ctx, args, r),
        104u32 => second_fn_reads(ctx, args, r),
        108u32 => fact_fn_reads(ctx, args, r),
        110u32 => stdev_fn_reads(ctx, args, r),
        111u32 => stdevp_fn_reads(ctx, args, r),
        112u32 => var_fn_reads(ctx, args, r),
        113u32 => varp_fn_reads(ctx, args, r),
        114u32 => mode_fn_reads(ctx, args, r),
        115u32 => large_fn_reads(ctx, args, r),
        116u32 => small_fn_reads(ctx, args, r),
        120u32 => aggregate_fn_reads(ctx, args, r),
        133u32 => trend_fn_reads(ctx, args, r),
        135u32 => sign_fn_reads(ctx, args, r),
        136u32 => mround_fn_reads(ctx, args, r),
        137u32 => even_fn_reads(ctx, args, r),
        138u32 => odd_fn_reads(ctx, args, r),
        139u32 => sumsq_reads(ctx, args, r),
        140u32 => quotient_fn_reads(ctx, args, r),
        141u32 => xor_fn_reads(ctx, args, r),
        147u32 => geomean_fn_reads(ctx, args, r),
        148u32 => harmean_fn_reads(ctx, args, r),
        149u32 => avedev_fn_reads(ctx, args, r),
        150u32 => skew_fn_reads(ctx, args, r),
        151u32 => kurt_fn_reads(ctx, args, r),
        158u32 => xnpv_fn_reads(ctx, args, r),
        159u32 => xirr_fn_reads(ctx, args, r),
        _ => true,
    }
}

/// Run the function of the row with a given id on its arguments, as they stand.
pub fn run_row<N: Number, R: Resolver<N>>(id: FuncId, ctx: &mut EvalCtx<R>, args: &[Expr<N>]) -> (r: Value<N>)
    requires
        spec_def(id.0) matches Some(f) && spec_arity_ok(f, args@.len()),
    ensures
        restored(*old(ctx), *final(ctx)),
        row_outcome(id, *old(ctx), args@, r),
        row_reads(id, *old(ctx), args@, r),
    decreases args_size(args@), 10nat,
{
    match id.0 {
        0u32 => sum(ctx, args),
        1u32 => average(ctx, args),
        2u32 => count(ctx, args),
        3u32 => if_fn(ctx, args),
        4u32 => iferror(ctx, args),
        5u32 => and_fn(ctx, args),
        6u32 => or_fn(ctx, args),
        7u32 => abs_fn(ctx, args),
        8u32 => round_fn(ctx, args),
        9u32 => sumif(ctx, args),
        10u32 => sumifs(ctx, args),
        11u32 => countif(ctx, args),
        12u32 => countifs(ctx, args),
        13u32 => averageif(ctx, args),
        14u32 => averageifs(ctx, args),
        15u32 => minifs(ctx, args),
        16u32 => maxifs(ctx, args),
        17u32 => product(ctx, args),
        18u32 => sumproduct(ctx, args),
        19u32 => roundup(ctx, args),
        20u32 => rounddown(ctx, args),
        21u32 => int_fn(ctx, args),
        22u32 => mod_fn(ctx, args),
        23u32 => power_fn(ctx, args),
        24u32 => sqrt_fn(ctx, args),
        25u32 => ceiling_fn(ctx, args),
        26u32 => floor_fn(ctx, args),
        27u32 => min_fn(ctx, args),
        28u32 => max_fn(ctx, args),
        29u32 => median_fn(ctx, args),
        30u32 => rank_fn(ctx, args),
        31u32 => counta(ctx, args),
        32u32 => countblank(ctx, args),
        33u32 => ifs_fn(ctx, args),
        34u32 => not_fn(ctx, args),
        35u32 => ifna(ctx, args),
        36u32 => switch_fn(ctx, args),
        37u32 => concat_fn(ctx, args),
        38u32 => textjoin_fn(ctx, args),
        39u32 => left_fn(ctx, args),
        40u32 => right_fn(ctx, args),
        41u32 => mid_fn(ctx, args),
        42u32 => len_fn(ctx, args),
        43u32 => find_fn(ctx, args),
        44u32 => search_fn(ctx, args),
        45u32 => substitute_fn(ctx, args),
        46u32 => replace_fn(ctx, args),
        47u32 => trim_fn(ctx, args),
        48u32 => upper_fn(ctx, args),
        49u32 => lower_fn(ctx, args),
        50u32 => text_fn(ctx, args),
        51u32 => date_fn(ctx, args),
        52u32 => year_fn(ctx, args),
        53u32 => month_fn(ctx, args),
        54u32 => day_fn(ctx, args),
        55u32 => edate_fn(ctx, args),
        56u32 => datedif_fn(ctx, args),
        57u32 => today_fn(ctx, args),
        58u32 => now_fn(ctx, args),
        59u32 => eomonth_fn(ctx, args),
        60u32 => days_fn(ctx, args),
        61u32 => weekday_fn(ctx, args),
        62u32 => xlookup(ctx, args),
        63u32 => index_fn(ctx, args),
        64u32 => match_fn(ctx, args),
        65u32 => vlookup(ctx, args),
        66u32 => hlookup(ctx, args),
        67u32 => lookup_fn(ctx, args),
        68u32 => xmatch(ctx, args),
        69u32 => choose_fn(ctx, args),
        70u32 => row_fn(ctx, args),
        71u32 => column_fn(ctx, args),
        72u32 => rows_fn(ctx, args),
        73u32 => columns_fn(ctx, args),
        74u32 => reserved_ref_eval(ctx, args),
        75u32 => reserved_ref_eval(ctx, args),
        76u32 => isblank(ctx, args),
        77u32 => isnumber(ctx, args),
        78u32 => istext(ctx, args),
        79u32 => isnontext(ctx, args),
        80u32 => islogical(ctx, args),
        81u32 => iserror(ctx, args),
        82u32 => iserr(ctx, args),
        83u32 => isna(ctx, args),
        84u32 => na_fn(ctx, args),
        85u32 => type_fn(ctx, args),
        86u32 => n_fn(ctx, args),
        87u32 => iseven_fn(ctx, args),
        88u32 => isodd_fn(ctx, args),
        89u32 => pmt_fn(ctx, args),
        90u32 => fv_fn(ctx, args),
        91u32 => npv_fn(ctx, args),
        92u32 => irr_fn(ctx, args),
        93u32 => sort_fn(ctx, args),
        94u32 => unique_fn(ctx, args),
        95u32 => filter_fn(ctx, args),
        96u32 => sequence_fn(ctx, args),
        97u32 => transpose_fn(ctx, args),
        98u32 => weeknum_fn(ctx, args),
        99u32 => yearfrac_fn(ctx, args),
        100u32 => workday_fn(ctx, args),
        101u32 => networkdays_fn(ctx, args),
        102u32 => hour_fn(ctx, args),
        103u32 => minute_fn(ctx, args),
        104u32 => second_fn(ctx, args),
        105u32 => time_fn(ctx, args),
        106u32 => gcd_fn(ctx, args),
        107u32 => lcm_fn(ctx, args),
        108u32 => fact_fn(ctx, args),
        109u32 => combin_fn(ctx, args),
        110u32 => stdev_fn(ctx, args),
        111u32 => stdevp_fn(ctx, args),
        112u32 => var_fn(ctx, args),
        113u32 => varp_fn(ctx, args),
        114u32 => mode_fn(ctx, args),
        115u32 => large_fn(ctx, args),
        116u32 => small_fn(ctx, args),
        117u32 => percentile_fn(ctx, args),
        118u32 => quartile_fn(ctx, args),
        119u32 => subtotal_fn(ctx, args),
        120u32 => aggregate_fn(ctx, args),
        121u32 => dsum(ctx, args),
        122u32 => daverage(ctx, args),
        123u32 => dcount(ctx, args),
        124u32 => dcounta(ctx, args),
        125u32 => dmax(ctx, args),
        126u32 => dmin(ctx, args),
        127u32 => dget(ctx, args),
        128u32 => correl_fn(ctx, args),
        129u32 => rsq_fn(ctx, args),
        130u32 => slope_fn(ctx, args),
        131u32 => intercept_fn(ctx, args),
        132u32 => forecast_fn(ctx, args),
        133u32 => trend_fn(ctx, args),
        134u32 => trunc_fn(ctx, args),
        135u32 => sign_fn(ctx, args),
        136u32 => mround_fn(ctx, args),
        137u32 => even_fn(ctx, args),
        138u32 => odd_fn(ctx, args),
        139u32 => sumsq(ctx, args),
        140u32 => quotient_fn(ctx, args),
        141u32 => xor_fn(ctx, args),
        142u32 => true_fn(ctx, args),
        143u32 => false_fn(ctx, args),
        144u32 => averagea_fn(ctx, args),
        145u32 => maxa_fn(ctx, args),
        146u32 => mina_fn(ctx, args),
        147u32 => geomean_fn(ctx, args),
        148u32 => harmean_fn(ctx, args),
        149u32 => avedev_fn(ctx, args),
        150u32 => skew_fn(ctx, args),
        151u32 => kurt_fn(ctx, args),
        152u32 => percentrank_inc_fn(ctx, args),
        153u32 => frequency_fn(ctx, args),
        154u32 => nper_fn(ctx, args),
        155u32 => rate_fn(ctx, args),
        156u32 => ipmt_fn(ctx, args),
        157u32 => ppmt_fn(ctx, args),
        158u32 => xnpv_fn(ctx, args),
        159u32 => xirr_fn(ctx, args),
        160u32 => convert_fn(ctx, args),
        161u32 => isformula_fn(ctx, args),
        _ => Value::Error(ErrKind::Name),
    }
}

} // verus!
