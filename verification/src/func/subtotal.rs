//! The meta-aggregators `SUBTOTAL` and `AGGREGATE`: a leading function number picks one of the
//! family reducers, which then runs on the remaining arguments. The grid has no hidden rows and no
//! notion of which cell is itself an aggregate, so only `AGGREGATE`'s error-ignoring options change
//! what the reducer sees.

use vstd::prelude::*;
use crate::eval::{coerce_num, lemma_restored_same, restored, scalarize, EvalCtx};
use crate::expr::{args_size, expr_size, lemma_arg_size, Expr, Resolver};
use crate::func::aggregation::{average, clamp_count, count, counta, lit_count, product, spec_mean, spec_product, spec_sum, sum};
use crate::func::helpers::{all_lit_nums, arg_value, gather_numbers, num_read, lit_num, lit_nums, one_num, room, spec_finite_or_num};
use crate::func::order_stats::{
    mode_fn, order_stat_of, percentile_exclusive, percentile_inclusive, quartile_exclusive,
    quartile_inclusive, stdev_fn, stdevp_fn, var_fn, varp_fn,
};
use crate::func::stats::{max_fn, median_fn, min_fn, spec_extreme_of, spec_median};
use crate::func::order_stats::{spec_dispersion, spec_mode, spec_order_stat, spec_percentile_inclusive, spec_quartile_inclusive, spec_percentile_exclusive, spec_quartile_exclusive};
use crate::func::regression::{lemma_same_cells_numbers, numbers_in_order};
use crate::func::aggregation::{lit_block, lit_cells};
use crate::func::helpers::lemma_same_flat;
use crate::value::{same_cells, same_value, ErrKind, Number, Shape, Value};

verus! {

/// What the reference-form reducer `code` gives for literal numeric data `nums` (see
/// [`run_reducer`]).
pub open spec fn spec_reduce<N: Number>(code: i64, nums: Seq<N>) -> Value<N> {
    if code == 1 {
        spec_mean(nums)
    } else if code == 2 || code == 3 {
        Value::Number(N::spec_from_int(clamp_count(nums.len() as int)))
    } else if code == 4 {
        spec_extreme_of(nums, false)
    } else if code == 5 {
        spec_extreme_of(nums, true)
    } else if code == 6 {
        spec_product(nums)
    } else if code == 7 {
        spec_dispersion(nums, true, true)
    } else if code == 8 {
        spec_dispersion(nums, false, true)
    } else if code == 9 {
        spec_finite_or_num(spec_sum(nums))
    } else if code == 10 {
        spec_dispersion(nums, true, false)
    } else if code == 11 {
        spec_dispersion(nums, false, false)
    } else if code == 12 {
        spec_median(nums)
    } else {
        spec_mode(nums)
    }
}

/// Literal numeric arguments are all counted by a count that admits numbers.
proof fn lemma_count_lit_nums<N>(args: Seq<Expr<N>>, k: int, f: spec_fn(Value<N>) -> bool)
    requires
        0 <= k <= args.len(),
        all_lit_nums(args, 0, args.len() as int),
        forall|x: N| #[trigger] f(Value::Number(x)),
    ensures
        lit_count(args, k, f) == k,
    decreases k,
{
    if k > 0 {
        lemma_count_lit_nums(args, k - 1, f);
        assert(lit_num(args[k - 1]) is Some);
        assert(f(Value::Number(lit_num(args[k - 1])->0)));
    }
}

/// The reference-form reducer of a function number (as an integer): 1 `AVERAGE`, 2 `COUNT`,
/// 3 `COUNTA`, 4 `MAX`, 5 `MIN`, 6 `PRODUCT`, 7 `STDEV`, 8 `STDEVP`, 9 `SUM`, 10 `VAR`, 11 `VARP`,
/// 12 `MEDIAN`, 13 `MODE`.
fn run_reducer<N: Number, R: Resolver<N>>(code: i64, ctx: &mut EvalCtx<R>, args: &[Expr<N>]) -> (r: Value<N>)
    requires
        1 <= code <= 13,
        args.len() >= 1,
    ensures
        restored(*old(ctx), *final(ctx)),
        room(*old(ctx)) && all_lit_nums(args@, 0, args@.len() as int) ==> r == spec_reduce(code, lit_nums(args@, 0, args@.len() as int)),
    decreases args_size(args@), 8nat,
{
    proof {
        if room(*old(ctx)) && all_lit_nums(args@, 0, args@.len() as int) {
            lemma_count_lit_nums(args@, args@.len() as int, |v: Value<N>| v is Number || v is Bool);
            lemma_count_lit_nums(args@, args@.len() as int, |v: Value<N>| !(v is Blank));
            assert forall|i: int| 0 <= i < args@.len() implies #[trigger] crate::func::aggregation::plain_lit(args@[i]) by {
                assert(lit_num(args@[i]) is Some);
            }
            assert forall|i: int| 0 <= i < args@.len() implies (#[trigger] args@[i] matches Expr::Lit(v) && !(v is Array)) by {
                assert(lit_num(args@[i]) is Some);
            }
        }
    }
    match code {
        1 => average(ctx, args),
        2 => count(ctx, args),
        3 => counta(ctx, args),
        4 => max_fn(ctx, args),
        5 => min_fn(ctx, args),
        6 => product(ctx, args),
        7 => stdev_fn(ctx, args),
        8 => stdevp_fn(ctx, args),
        9 => sum(ctx, args),
        10 => var_fn(ctx, args),
        11 => varp_fn(ctx, args),
        12 => median_fn(ctx, args),
        _ => mode_fn(ctx, args),
    }
}

/// The `SUBTOTAL` function numbers: 1…11 and 101…111 select the same reducers (the 100-series
/// ignores hidden rows, of which the grid has none). Anything else is refused.
pub open spec fn spec_subtotal_code(raw: i64) -> Option<i64> {
    if 101 <= raw <= 111 {
        Some((raw - 100) as i64)
    } else if 1 <= raw <= 11 {
        Some(raw)
    } else {
        None
    }
}

/// Map a truncated `SUBTOTAL` function number to its reducer code (see [`spec_subtotal_code`]).
pub fn subtotal_code(raw: i64) -> (r: Option<i64>)
    ensures
        r == spec_subtotal_code(raw),
{
    if 101 <= raw && raw <= 111 {
        Some(raw - 100)
    } else if 1 <= raw && raw <= 11 {
        Some(raw)
    } else {
        None
    }
}

/// The cells of a run that are not errors, in order.
pub open spec fn non_errors<N>(s: Seq<Value<N>>) -> Seq<Value<N>>
    decreases s.len(),
{
    if s.len() == 0 {
        Seq::empty()
    } else {
        let rest = non_errors(s.drop_last());
        if s.last() is Error { rest } else { rest.push(s.last()) }
    }
}

/// Prepare one evaluated datum for a reducer: when errors are ignored, an array keeps only its
/// non-error cells (re-packed as one row) and a lone error becomes a blank, which every reducer
/// skips; otherwise the value passes through.
pub fn prep_value<N: Number>(v: Value<N>, ignore_errors: bool) -> (r: Value<N>)
    ensures
        !ignore_errors ==> r == v,
        ignore_errors ==> match v {
            Value::Array(_, cells) => r matches Value::Array(s, out) && s == (Shape { rows: 1, cols: out@.len() as u32 })
                && same_cells(out@, non_errors(cells@)),
            Value::Error(_) => r == Value::<N>::Blank,
            _ => r == v,
        },
{
    if !ignore_errors {
        return v;
    }
    match v {
        Value::Array(shape, cells) => {
            let mut kept: Vec<Value<N>> = Vec::new();
            let mut i: usize = 0;
            while i < cells.len()
                invariant
                    i <= cells@.len(),
                    same_cells(kept@, non_errors(cells@.subrange(0, i as int))),
                decreases cells@.len() - i,
            {
                let ghost before = kept@;
                let ghost prefix = cells@.subrange(0, i + 1);
                proof {
                    assert(prefix.drop_last() == cells@.subrange(0, i as int));
                    assert(prefix.last() == cells@[i as int]);
                }
                let is_error = match &cells[i] {
                    Value::Error(_) => true,
                    _ => false,
                };
                if !is_error {
                    let c = cells[i].duplicate();
                    kept.push(c);
                    proof {
                        assert(kept@.drop_last() == before);
                        assert(same_value(kept@.last(), cells@[i as int]));
                        assert(non_errors(prefix) == non_errors(cells@.subrange(0, i as int)).push(cells@[i as int]));
                        assert(non_errors(prefix).drop_last() == non_errors(cells@.subrange(0, i as int)));
                    }
                }
                i = i + 1;
            }
            proof {
                assert(cells@.subrange(0, cells@.len() as int) == cells@);
            }
            let cols = kept.len() as u32;
            Value::Array(Shape { rows: 1, cols }, kept)
        },
        Value::Error(_) => Value::Blank,
        other => other,
    }
}

/// A run of literal arguments is as large as it is long.
proof fn lemma_literals_size<N>(s: Seq<Expr<N>>)
    requires
        forall|i: int| 0 <= i < s.len() ==> #[trigger] s[i] is Lit,
    ensures
        args_size(s) == s.len(),
    decreases s.len(),
{
    if s.len() > 0 {
        assert forall|i: int| 0 <= i < s.drop_last().len() implies #[trigger] s.drop_last()[i] is Lit by {
            assert(s.drop_last()[i] == s[i]);
        }
        lemma_literals_size(s.drop_last());
        assert(s.last() is Lit);
        assert(expr_size(s.last()) == 1);
    }
}

/// A run of arguments is at least as large as it is long.
proof fn lemma_args_size_len<N>(s: Seq<Expr<N>>)
    ensures
        args_size(s) >= s.len(),
    decreases s.len(),
{
    if s.len() > 0 {
        lemma_args_size_len(s.drop_last());
        assert(expr_size(s.last()) >= 1);
    }
}

/// Evaluate the arguments from `lo` on, each to a literal of its [`prep_value`].
fn materialize<N: Number, R: Resolver<N>>(ctx: &mut EvalCtx<R>, args: &[Expr<N>], lo: usize, ignore_errors: bool) -> (r: Vec<Expr<N>>)
    requires
        lo <= args.len(),
    ensures
        restored(*old(ctx), *final(ctx)),
        r@.len() == args.len() - lo,
        args_size(r@) == r@.len(),
        room(*old(ctx)) && all_lit_nums(args@, lo as int, args@.len() as int) ==> all_lit_nums(r@, 0, r@.len() as int)
            && lit_nums(r@, 0, r@.len() as int) == lit_nums(args@, lo as int, args@.len() as int),
    decreases args_size(args@), 4nat,
{
    let mut out: Vec<Expr<N>> = Vec::new();
    let mut i: usize = lo;
    while i < args.len()
        invariant
            lo <= i <= args.len(),
            out@.len() == i - lo,
            forall|k: int| 0 <= k < out@.len() ==> #[trigger] out@[k] is Lit,
            restored(*old(ctx), *ctx),
            room(*old(ctx)) && all_lit_nums(args@, lo as int, args@.len() as int) ==> forall|k: int| 0 <= k < out@.len()
                ==> lit_num(#[trigger] out@[k]) == lit_num(args@[lo + k]) && lit_num(args@[lo + k]) is Some,
        decreases args.len() - i,
    {
        proof {
            lemma_arg_size(args@, i as int);
        }
        let v = ctx.eval(&args[i]);
        out.push(Expr::Lit(prep_value(v, ignore_errors)));
        i = i + 1;
    }
    proof {
        lemma_literals_size(out@);
        if room(*old(ctx)) && all_lit_nums(args@, lo as int, args@.len() as int) {
            assert forall|k: int| 0 <= k < out@.len() implies (#[trigger] lit_num(out@[k])) is Some by {}
            assert(lit_nums(out@, 0, out@.len() as int) =~= lit_nums(args@, lo as int, args@.len() as int));
        }
    }
    out
}

/// What [`subtotal_fn`] is stated to give, for a context `ctx` and arguments `args`.
pub open spec fn subtotal_fn_gives<'r, N: Number, R: Resolver<N>>(ctx: EvalCtx<'r, R>, args: Seq<Expr<N>>, r: Value<N>) -> bool {
    &&& room(ctx) ==> (lit_num(args[0]) matches Some(x) ==> all_lit_nums(args, 1, args.len() as int)
        ==> r == match spec_subtotal_code(x.spec_trunc_int()) {
        None => Value::<N>::Error(ErrKind::Value),
        Some(c) => spec_reduce(c, lit_nums(args, 1, args.len() as int)),
    })
}

/// `SUBTOTAL(function_num, ref1, …)` — run the reducer `function_num` names (see
/// [`spec_subtotal_code`]) on the remaining arguments; an unknown number is `#VALUE!`.
pub fn subtotal_fn<N: Number, R: Resolver<N>>(ctx: &mut EvalCtx<R>, args: &[Expr<N>]) -> (r: Value<N>)
    requires
        args.len() >= 2,
    ensures
        restored(*old(ctx), *final(ctx)),
        room(*old(ctx)) ==> (lit_num(args[0]) matches Some(x) ==> all_lit_nums(args@, 1, args@.len() as int)
            ==> r == match spec_subtotal_code(x.spec_trunc_int()) {
            None => Value::<N>::Error(ErrKind::Value),
            Some(c) => spec_reduce(c, lit_nums(args@, 1, args@.len() as int)),
        }),
    decreases args_size(args@), 7nat,
{
    proof {
        lemma_arg_size(args@, 0);
        lemma_args_size_len(args@);
    }
    let raw = match one_num(ctx, &args[0]) {
        Ok(n) => n.trunc_int(),
        Err(k) => {
            return Value::Error(k);
        },
    };
    let code = match subtotal_code(raw) {
        Some(c) => c,
        None => {
            return Value::Error(ErrKind::Value);
        },
    };
    let data = materialize(ctx, args, 1, false);
    run_reducer(code, ctx, &data)
}

/// `AGGREGATE`'s options 2, 3, 6 and 7 ignore error values; the others only ignore hidden rows or
/// nested aggregates, which the grid does not have.
pub open spec fn ignores_errors(options: i64) -> bool {
    options == 2 || options == 3 || options == 6 || options == 7
}

/// What the array form of `AGGREGATE` computes from the data's numbers and `k` (see
/// [`aggregate_array_form`]).
pub open spec fn spec_array_stat<N: Number>(fnum: i64, nums: Seq<N>, k: N) -> Value<N> {
    if fnum == 14 {
        spec_order_stat(nums, k.spec_trunc_of(), true)
    } else if fnum == 15 {
        spec_order_stat(nums, k.spec_trunc_of(), false)
    } else if fnum == 16 {
        spec_percentile_inclusive(nums, k)
    } else if fnum == 17 {
        spec_quartile_inclusive(nums, k.spec_trunc_of())
    } else if fnum == 18 {
        spec_percentile_exclusive(nums, k)
    } else {
        spec_quartile_exclusive(nums, k)
    }
}

/// The array form of `AGGREGATE` (function numbers 14…19) on the prepared array value and the
/// value of `k`: 14 `LARGE`, 15 `SMALL`, 16 `PERCENTILE`, 17 `QUARTILE`, 18 the exclusive
/// percentile, 19 the exclusive quartile. The array's numeric data is gathered first, so its error
/// wins over `k`'s.
pub fn aggregate_array_form<N: Number>(fnum: i64, data: Value<N>, kv: Value<N>) -> (r: Value<N>)
    requires
        14 <= fnum <= 19,
    ensures
        data is Error ==> r == data,
        r is Number || r is Error,
        data matches Value::Array(_, cells) ==> match numbers_in_order(cells@) {
            Err(e) => r == Value::<N>::Error(e),
            Ok(nums) => match kv {
                Value::Number(k) => r == spec_array_stat(fnum, nums, k),
                Value::Error(e) => r == Value::<N>::Error(e),
                _ => true,
            },
        },
{
    let mut nums: Vec<N> = Vec::new();
    match gather_numbers(data, &mut nums) {
        Ok(()) => {},
        Err(k) => {
            return Value::Error(k);
        },
    }
    let k = match coerce_num(&scalarize(kv)) {
        Ok(n) => n,
        Err(e) => {
            return Value::Error(e);
        },
    };
    if fnum == 14 {
        order_stat_of(nums, k.trunc_of(), true)
    } else if fnum == 15 {
        order_stat_of(nums, k.trunc_of(), false)
    } else if fnum == 16 {
        percentile_inclusive(nums, k)
    } else if fnum == 17 {
        quartile_inclusive(nums, k.trunc_of())
    } else if fnum == 18 {
        percentile_exclusive(nums, k)
    } else {
        quartile_exclusive(nums, k)
    }
}

/// What the array form of `AGGREGATE` gives for function `fnum` over an evaluated array argument
/// `raw` (error cells dropped first when `ignore`) and an evaluated `k`: an error argument stays
/// (unless errors are ignored); over an array, the first error among its cells, else the statistic
/// of its numbers at a number `k`, or `k`'s error.
pub open spec fn array_form_given<N: Number>(fnum: i64, raw: Value<N>, ignore: bool, kv: Value<N>, r: Value<N>) -> bool {
    match raw {
        Value::Error(e) => !ignore ==> r == Value::<N>::Error(e),
        Value::Array(_, cells) => match numbers_in_order(if ignore { non_errors(cells@) } else { cells@ }) {
            Err(e) => r == Value::<N>::Error(e),
            Ok(nums) => match kv {
                Value::Number(k) => r == spec_array_stat(fnum, nums, k),
                Value::Error(e) => r == Value::<N>::Error(e),
                _ => true,
            },
        },
        _ => true,
    }
}

/// What `AGGREGATE` gives over its evaluated arguments: the function number and options (their
/// errors propagate; truncated, outside 1…19 and 0…7 is `#VALUE!`); the array form (14…19) needs
/// exactly an array and `k` (else `#VALUE!`) and gives [`array_form_given`].
pub open spec fn aggregate_read<'r, N: Number, R: Resolver<N>>(ctx: EvalCtx<'r, R>, args: Seq<Expr<N>>, r: Value<N>) -> bool {
    exists|fr: Result<N, ErrKind>| #[trigger] num_read(ctx, args[0], fr) && match fr {
        Err(k) => r == Value::<N>::Error(k),
        Ok(f) => exists|orr: Result<N, ErrKind>| #[trigger] num_read(ctx, args[1], orr) && match orr {
            Err(k) => r == Value::<N>::Error(k),
            Ok(o) => {
                let fnum = f.spec_trunc_int();
                let opt = o.spec_trunc_int();
                if fnum < 1 || fnum > 19 || opt < 0 || opt > 7 {
                    r == Value::<N>::Error(ErrKind::Value)
                } else if fnum >= 14 {
                    if args.len() != 4 {
                        r == Value::<N>::Error(ErrKind::Value)
                    } else {
                        exists|raw: Value<N>, kv: Value<N>| #[trigger] arg_value(ctx, args[2], raw) && #[trigger] arg_value(ctx, args[3], kv)
                            && array_form_given(fnum, raw, ignores_errors(opt), kv, r)
                    }
                } else {
                    true
                }
            },
        },
    }
}

/// What [`aggregate_fn`] is stated to give, for a context `ctx` and arguments `args`.
pub open spec fn aggregate_fn_gives<'r, N: Number, R: Resolver<N>>(ctx: EvalCtx<'r, R>, args: Seq<Expr<N>>, r: Value<N>) -> bool {
    &&& room(ctx) ==> (lit_num(args[0]) matches Some(f) ==> (lit_num(args[1]) matches Some(o)
        ==> (f.spec_trunc_int() < 1 || f.spec_trunc_int() > 19 || o.spec_trunc_int() < 0 || o.spec_trunc_int() > 7
            ==> r == Value::<N>::Error(ErrKind::Value))
        && (1 <= f.spec_trunc_int() <= 13 && 0 <= o.spec_trunc_int() <= 7 && all_lit_nums(args, 2, args.len() as int)
            ==> r == spec_reduce(f.spec_trunc_int(), lit_nums(args, 2, args.len() as int)))
        && (14 <= f.spec_trunc_int() <= 19 && 0 <= o.spec_trunc_int() <= 7 && args.len() != 4
            ==> r == Value::<N>::Error(ErrKind::Value))
        && (14 <= f.spec_trunc_int() <= 19 && 0 <= o.spec_trunc_int() <= 7 && args.len() == 4 && lit_block(args[2]) is Some
            ==> match numbers_in_order(if ignores_errors(o.spec_trunc_int()) { non_errors(lit_cells(args[2])) } else { lit_cells(args[2]) }) {
                Err(e) => r == Value::<N>::Error(e),
                Ok(nums) => match args[3] {
                    Expr::Lit(Value::Number(k)) => r == spec_array_stat(f.spec_trunc_int(), nums, k),
                    Expr::Lit(Value::Error(e)) => r == Value::<N>::Error(e),
                    _ => true,
                },
            })))
}

/// What [`aggregate_fn`] is stated to give for the values its arguments evaluate to in `ctx`.
pub open spec fn aggregate_fn_reads<'r, N: Number, R: Resolver<N>>(ctx: EvalCtx<'r, R>, args: Seq<Expr<N>>, r: Value<N>) -> bool {
    &&& aggregate_read(ctx, args, r)
}

/// `AGGREGATE(function_num, options, ref1, …)` (reference form, 1…13, see [`run_reducer`]'s
/// numbering) or `AGGREGATE(function_num, options, array, k)` (array form, 14…19, see
/// [`aggregate_array_form`]). Options that ignore errors (see [`ignores_errors`]) strip error
/// cells from the data first (see [`prep_value`]). A function number outside 1…19, options outside
/// 0…7, or the array form without exactly an array and `k`, is `#VALUE!`.
pub fn aggregate_fn<N: Number, R: Resolver<N>>(ctx: &mut EvalCtx<R>, args: &[Expr<N>]) -> (r: Value<N>)
    requires
        args.len() >= 3,
    ensures
        restored(*old(ctx), *final(ctx)),
        room(*old(ctx)) ==> (lit_num(args[0]) matches Some(f) ==> (lit_num(args[1]) matches Some(o)
            ==> (f.spec_trunc_int() < 1 || f.spec_trunc_int() > 19 || o.spec_trunc_int() < 0 || o.spec_trunc_int() > 7
                ==> r == Value::<N>::Error(ErrKind::Value))
            && (1 <= f.spec_trunc_int() <= 13 && 0 <= o.spec_trunc_int() <= 7 && all_lit_nums(args@, 2, args@.len() as int)
                ==> r == spec_reduce(f.spec_trunc_int(), lit_nums(args@, 2, args@.len() as int)))
            && (14 <= f.spec_trunc_int() <= 19 && 0 <= o.spec_trunc_int() <= 7 && args@.len() != 4
                ==> r == Value::<N>::Error(ErrKind::Value))
            && (14 <= f.spec_trunc_int() <= 19 && 0 <= o.spec_trunc_int() <= 7 && args@.len() == 4 && lit_block(args[2]) is Some
                ==> match numbers_in_order(if ignores_errors(o.spec_trunc_int()) { non_errors(lit_cells(args[2])) } else { lit_cells(args[2]) }) {
                    Err(e) => r == Value::<N>::Error(e),
                    Ok(nums) => match args[3] {
                        Expr::Lit(Value::Number(k)) => r == spec_array_stat(f.spec_trunc_int(), nums, k),
                        Expr::Lit(Value::Error(e)) => r == Value::<N>::Error(e),
                        _ => true,
                    },
                }))),
        aggregate_read(*old(ctx), args@, r),
    decreases args_size(args@), 7nat,
{
    proof {
        lemma_arg_size(args@, 0);
        lemma_arg_size(args@, 1);
        lemma_args_size_len(args@);
    }
    let rf = one_num(ctx, &args[0]);
    proof {
        assert(num_read(*old(ctx), args@[0], rf));
        lemma_restored_same(*old(ctx), *ctx);
    }
    let fnum = match rf {
        Ok(n) => n.trunc_int(),
        Err(k) => {
            return Value::Error(k);
        },
    };
    let ro = one_num(ctx, &args[1]);
    proof {
        assert(num_read(*old(ctx), args@[1], ro));
        lemma_restored_same(*old(ctx), *ctx);
    }
    let options = match ro {
        Ok(n) => n.trunc_int(),
        Err(k) => {
            return Value::Error(k);
        },
    };
    if fnum < 1 || fnum > 19 || options < 0 || options > 7 {
        return Value::Error(ErrKind::Value);
    }
    let ignore = options == 2 || options == 3 || options == 6 || options == 7;
    if fnum <= 13 {
        let data = materialize(ctx, args, 2, ignore);
        run_reducer(fnum, ctx, &data)
    } else {
        if args.len() != 4 {
            return Value::Error(ErrKind::Value);
        }
        proof {
            lemma_arg_size(args@, 2);
            lemma_arg_size(args@, 3);
        }
        let raw = ctx.eval(&args[2]);
        proof {
            if room(*old(ctx)) && lit_block(args@[2]) is Some && raw is Array {
                lemma_same_flat(raw->Array_1@, lit_cells(args@[2]));
            }
        }
        proof {
            assert(arg_value(*old(ctx), args@[2], raw));
            lemma_restored_same(*old(ctx), *ctx);
        }
        let ghost raw0 = raw;
        let data = prep_value(raw, ignore);
        proof {
            if room(*old(ctx)) && lit_block(args@[2]) is Some && ignore && data is Array {
                lemma_same_cells_numbers(data->Array_1@, non_errors(lit_cells(args@[2])));
            }
            if ignore && raw0 is Array && data is Array {
                lemma_same_cells_numbers(data->Array_1@, non_errors(raw0->Array_1@));
            }
        }
        let kv = ctx.eval(&args[3]);
        proof {
            assert(arg_value(*old(ctx), args@[3], kv));
        }
        let r = aggregate_array_form(fnum, data, kv);
        proof {
            assert(ignore == ignores_errors(options));
            assert(array_form_given(fnum, raw0, ignore, kv, r));
        }
        r
    }
}

} // verus!
