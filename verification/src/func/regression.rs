//! Paired-sample statistics and the least-squares line: `CORREL`, `RSQ`, `SLOPE`, `INTERCEPT`,
//! `FORECAST`, `TREND`, and the population and sample covariances.

use vstd::prelude::*;
use crate::eval::{bool_of_scalar, coerce_num, lemma_restored_same, less_than, restored, scalarize, spec_scalarize, EvalCtx};
use crate::value::Order;
use crate::expr::{args_size, lemma_arg_size, Expr, Resolver};
use crate::func::aggregation::{clamp_count, len_number, lit_block, lit_cells, lit_shape};
use crate::func::spill::lit_flag;
use crate::func::helpers::{arg_value, block, block_result, spec_block, finite_or_num, lemma_same_flat, lit_num, opt_bool, room, spec_finite_or_num};
use crate::value::{same_cells, same_value, ErrKind, Number, Shape, Value};

verus! {

/// The numeric pairs of two blocks read in parallel: a pair is kept when both cells are numbers;
/// an error in either cell propagates (the `x` cell's first, position by position).
pub open spec fn pairs_of<N>(xs: Seq<Value<N>>, ys: Seq<Value<N>>, n: nat) -> Result<Seq<(N, N)>, ErrKind>
    decreases n,
{
    if n == 0 {
        Ok(Seq::empty())
    } else {
        match pairs_of(xs, ys, (n - 1) as nat) {
            Err(k) => Err(k),
            Ok(p) => {
                let a = xs[n - 1];
                let b = ys[n - 1];
                if a is Error {
                    Err(a->Error_0)
                } else if b is Error {
                    Err(b->Error_0)
                } else if a is Number && b is Number {
                    Ok(p.push((a->Number_0, b->Number_0)))
                } else {
                    Ok(p)
                }
            },
        }
    }
}

/// Once the pairs of a prefix hold an error, every longer prefix reports it.
proof fn lemma_pairs_error<N>(xs: Seq<Value<N>>, ys: Seq<Value<N>>, n: nat, m: nat)
    requires
        n <= m,
        pairs_of(xs, ys, n) is Err,
    ensures
        pairs_of(xs, ys, m) == pairs_of(xs, ys, n),
    decreases m - n,
{
    if n < m {
        lemma_pairs_error(xs, ys, n, (m - 1) as nat);
    }
}

/// Pair up two cell runs of equal length (see [`pairs_of`]).
pub fn pair_cells<N: Number>(xs: &Vec<Value<N>>, ys: &Vec<Value<N>>) -> (r: Result<Vec<(N, N)>, ErrKind>)
    requires
        xs@.len() == ys@.len(),
    ensures
        match r {
            Ok(p) => pairs_of(xs@, ys@, xs@.len()) == Ok::<Seq<(N, N)>, ErrKind>(p@),
            Err(k) => pairs_of(xs@, ys@, xs@.len()) == Err::<Seq<(N, N)>, ErrKind>(k),
        },
{
    let mut out: Vec<(N, N)> = Vec::new();
    let mut i: usize = 0;
    while i < xs.len()
        invariant
            xs@.len() == ys@.len(),
            i <= xs@.len(),
            pairs_of(xs@, ys@, i as nat) == Ok::<Seq<(N, N)>, ErrKind>(out@),
        decreases xs@.len() - i,
    {
        match (&xs[i], &ys[i]) {
            (Value::Error(k), _) => {
                proof {
                    lemma_pairs_error(xs@, ys@, (i + 1) as nat, xs@.len());
                }
                return Err(*k);
            },
            (_, Value::Error(k)) => {
                proof {
                    lemma_pairs_error(xs@, ys@, (i + 1) as nat, xs@.len());
                }
                return Err(*k);
            },
            (Value::Number(x), Value::Number(y)) => out.push((*x, *y)),
            _ => {},
        }
        i = i + 1;
    }
    Ok(out)
}

/// Two runs that hold the same values agree cell by cell.
pub proof fn lemma_same_cells_at<N>(x: Seq<Value<N>>, y: Seq<Value<N>>, i: int)
    requires
        same_cells(x, y),
        0 <= i < x.len(),
    ensures
        x.len() == y.len(),
        same_value(x[i], y[i]),
    decreases x.len(),
{
    if i < x.len() - 1 {
        lemma_same_cells_at(x.drop_last(), y.drop_last(), i);
        assert(x.drop_last()[i] == x[i]);
        assert(y.drop_last()[i] == y[i]);
    }
}

/// Pairing runs that hold the same values gives the same pairs.
proof fn lemma_pairs_same<N>(xs: Seq<Value<N>>, ys: Seq<Value<N>>, xs2: Seq<Value<N>>, ys2: Seq<Value<N>>, n: nat)
    requires
        same_cells(xs, xs2),
        same_cells(ys, ys2),
        n <= xs.len(),
        n <= ys.len(),
    ensures
        pairs_of(xs, ys, n) == pairs_of(xs2, ys2, n),
    decreases n,
{
    if n > 0 {
        lemma_pairs_same(xs, ys, xs2, ys2, (n - 1) as nat);
        lemma_same_cells_at(xs, xs2, n - 1);
        lemma_same_cells_at(ys, ys2, n - 1);
        match xs[n - 1] {
            Value::Array(..) => { assert(xs2[n - 1] is Array); },
            _ => { assert(xs[n - 1] == xs2[n - 1]); },
        }
        match ys[n - 1] {
            Value::Array(..) => { assert(ys2[n - 1] is Array); },
            _ => { assert(ys[n - 1] == ys2[n - 1]); },
        }
    }
}

/// The pairs of two literal array arguments (see [`pairs_of`]): `#N/A` for different cell counts;
/// `None` unless both are well-formed literal arrays.
pub open spec fn lit_pairs<N>(a: Expr<N>, b: Expr<N>) -> Option<Result<Seq<(N, N)>, ErrKind>> {
    match a {
        Expr::Lit(Value::Array(s1, c1)) => match b {
            Expr::Lit(Value::Array(s2, c2)) => if c1@.len() == s1.rows * s1.cols && c2@.len() == s2.rows * s2.cols {
                Some(if c1@.len() != c2@.len() { Err(ErrKind::Na) } else { pairs_of(c1@, c2@, c1@.len()) })
            } else {
                None
            },
            _ => None,
        },
        _ => None,
    }
}

/// Evaluate two arguments to blocks and pair their numeric cells (see [`pair_cells`]); blocks with
/// different cell counts are `#N/A`.
fn collect_pairs<N: Number, R: Resolver<N>>(ctx: &mut EvalCtx<R>, args: &[Expr<N>], ix: usize, iy: usize) -> (r: Result<Vec<(N, N)>, ErrKind>)
    requires
        ix < args.len(),
        iy < args.len(),
    ensures
        restored(*old(ctx), *final(ctx)),
        room(*old(ctx)) ==> (lit_pairs(args[ix as int], args[iy as int]) matches Some(res) ==> match res {
            Ok(p) => r matches Ok(v) && v@ == p,
            Err(k) => r == Err::<Vec<(N, N)>, ErrKind>(k),
        }),
    decreases args_size(args@), 4nat,
{
    proof {
        lemma_arg_size(args@, ix as int);
        lemma_arg_size(args@, iy as int);
    }
    let (_, _, xs) = block(ctx, &args[ix])?;
    let (_, _, ys) = block(ctx, &args[iy])?;
    if xs.len() != ys.len() {
        return Err(ErrKind::Na);
    }
    proof {
        if room(*old(ctx)) && lit_pairs(args@[ix as int], args@[iy as int]) is Some {
            let c1 = args@[ix as int]->Lit_0->Array_1;
            let c2 = args@[iy as int]->Lit_0->Array_1;
            lemma_pairs_same(xs@, ys@, c1@, c2@, xs@.len());
        }
    }
    pair_cells(&xs, &ys)
}

/// The centred sums of a paired sample: the means and `Σ(x−x̄)²`, `Σ(y−ȳ)²`, `Σ(x−x̄)(y−ȳ)`.
pub struct Sums<N> {
    pub n: usize,
    pub mx: N,
    pub my: N,
    pub sxx: N,
    pub syy: N,
    pub sxy: N,
}

/// The sum of the first `k` `x`s (`fst`) or `y`s of a paired sample, in order.
pub open spec fn sum_side<N: Number>(p: Seq<(N, N)>, k: int, fst: bool) -> N
    decreases k,
{
    if k <= 0 {
        N::spec_from_int(0)
    } else {
        sum_side(p, k - 1, fst).spec_plus(if fst { p[k - 1].0 } else { p[k - 1].1 })
    }
}

/// `Σ(x−mx)²`, `Σ(y−my)²` and `Σ(x−mx)(y−my)` over the first `k` pairs, in order.
pub open spec fn centred<N: Number>(p: Seq<(N, N)>, mx: N, my: N, k: int) -> (N, N, N)
    decreases k,
{
    if k <= 0 {
        (N::spec_from_int(0), N::spec_from_int(0), N::spec_from_int(0))
    } else {
        let c = centred(p, mx, my, k - 1);
        let dx = p[k - 1].0.spec_minus(mx);
        let dy = p[k - 1].1.spec_minus(my);
        (c.0.spec_plus(dx.spec_times(dx)), c.1.spec_plus(dy.spec_times(dy)), c.2.spec_plus(dx.spec_times(dy)))
    }
}

/// The centred sums of a paired sample (see [`sums`]).
pub open spec fn spec_sums<N: Number>(p: Seq<(N, N)>) -> Sums<N> {
    let n = p.len() as int;
    let nf = N::spec_from_int(clamp_count(n));
    let mx = sum_side(p, n, true).spec_over(nf);
    let my = sum_side(p, n, false).spec_over(nf);
    let c = centred(p, mx, my, n);
    Sums { n: n as usize, mx, my, sxx: c.0, syy: c.1, sxy: c.2 }
}

/// The centred sums of a non-empty paired sample (`None` for an empty one).
pub fn sums<N: Number>(pairs: &Vec<(N, N)>) -> (r: Option<Sums<N>>)
    ensures
        r is None <==> pairs@.len() == 0,
        r matches Some(s) ==> s.n == pairs@.len() && s == spec_sums(pairs@),
{
    let n = pairs.len();
    if n == 0 {
        return None;
    }
    let nf = len_number::<N>(n);
    let mut tx = N::from_int(0);
    let mut ty = N::from_int(0);
    let mut i: usize = 0;
    while i < n
        invariant
            n == pairs@.len(),
            i <= n,
            tx == sum_side(pairs@, i as int, true),
            ty == sum_side(pairs@, i as int, false),
        decreases n - i,
    {
        tx = tx.plus(pairs[i].0);
        ty = ty.plus(pairs[i].1);
        i = i + 1;
    }
    let mx = tx.over(nf);
    let my = ty.over(nf);
    let mut sxx = N::from_int(0);
    let mut syy = N::from_int(0);
    let mut sxy = N::from_int(0);
    let mut j: usize = 0;
    while j < n
        invariant
            n == pairs@.len(),
            j <= n,
            (sxx, syy, sxy) == centred(pairs@, mx, my, j as int),
        decreases n - j,
    {
        let dx = pairs[j].0.minus(mx);
        let dy = pairs[j].1.minus(my);
        sxx = sxx.plus(dx.times(dx));
        syy = syy.plus(dy.times(dy));
        sxy = sxy.plus(dx.times(dy));
        j = j + 1;
    }
    Some(Sums { n, mx, my, sxx, syy, sxy })
}

/// A number is above zero.
pub open spec fn spec_positive<N: Number>(x: N) -> bool {
    N::spec_from_int(0).spec_order(x) == Some(Order::Less)
}

/// Whether a number is above zero.
fn positive<N: Number>(x: N) -> (r: bool)
    ensures
        r == spec_positive(x),
{
    less_than(N::from_int(0), x)
}

/// What a paired-sample statistic gives for pairs `p` (and, for `FORECAST`, the point `x0`):
/// `#DIV/0!` without pairs or without the spread it divides by.
pub open spec fn spec_paired<N: Number>(stat: PairStat, p: Seq<(N, N)>, x0: N) -> Value<N> {
    let s = spec_sums(p);
    if p.len() == 0 {
        Value::Error(ErrKind::Div0)
    } else {
        match stat {
            PairStat::Correl => if spec_positive(s.sxx) && spec_positive(s.syy) {
                spec_finite_or_num(s.sxy.spec_over(s.sxx.spec_times(s.syy).spec_square_root()))
            } else {
                Value::Error(ErrKind::Div0)
            },
            PairStat::Rsq => if spec_positive(s.sxx) && spec_positive(s.syy) {
                spec_finite_or_num(s.sxy.spec_times(s.sxy).spec_over(s.sxx.spec_times(s.syy)))
            } else {
                Value::Error(ErrKind::Div0)
            },
            PairStat::CovP => spec_finite_or_num(s.sxy.spec_over(N::spec_from_int(clamp_count(s.n as int)))),
            PairStat::CovS => if s.n >= 2 {
                spec_finite_or_num(s.sxy.spec_over(N::spec_from_int(clamp_count(s.n as int)).spec_minus(N::spec_from_int(1))))
            } else {
                Value::Error(ErrKind::Div0)
            },
            PairStat::Slope => if spec_positive(s.sxx) {
                spec_finite_or_num(s.sxy.spec_over(s.sxx))
            } else {
                Value::Error(ErrKind::Div0)
            },
            PairStat::Intercept => if spec_positive(s.sxx) {
                spec_finite_or_num(s.my.spec_minus(s.sxy.spec_over(s.sxx).spec_times(s.mx)))
            } else {
                Value::Error(ErrKind::Div0)
            },
            PairStat::Forecast => if spec_positive(s.sxx) {
                let slope = s.sxy.spec_over(s.sxx);
                spec_finite_or_num(s.my.spec_minus(slope.spec_times(s.mx)).spec_plus(slope.spec_times(x0)))
            } else {
                Value::Error(ErrKind::Div0)
            },
        }
    }
}

/// The paired-sample statistics.
pub enum PairStat {
    Correl,
    Rsq,
    CovP,
    CovS,
    Slope,
    Intercept,
    Forecast,
}

/// A statistic over the pairs of two literal arrays: their error, or the statistic.
pub open spec fn spec_paired_lit<N: Number>(stat: PairStat, res: Result<Seq<(N, N)>, ErrKind>, x0: N) -> Value<N> {
    match res {
        Err(k) => Value::Error(k),
        Ok(p) => spec_paired(stat, p, x0),
    }
}

/// What [`correl_fn`] is stated to give, for a context `ctx` and arguments `args`.
pub open spec fn correl_fn_gives<'r, N: Number, R: Resolver<N>>(ctx: EvalCtx<'r, R>, args: Seq<Expr<N>>, r: Value<N>) -> bool {
    &&& r is Number || r is Error
    &&& room(ctx) ==> (lit_pairs(args[0], args[1]) matches Some(res) ==> r == spec_paired_lit(PairStat::Correl, res, N::spec_from_int(0)))
}

/// `CORREL(array1, array2)` — the Pearson correlation `Sxy / √(Sxx·Syy)`; different cell counts
/// are `#N/A`, and no pair or a zero spread is `#DIV/0!`.
pub fn correl_fn<N: Number, R: Resolver<N>>(ctx: &mut EvalCtx<R>, args: &[Expr<N>]) -> (r: Value<N>)
    requires
        args.len() == 2,
    ensures
        restored(*old(ctx), *final(ctx)),
        r is Number || r is Error,
        room(*old(ctx)) ==> (lit_pairs(args[0], args[1]) matches Some(res) ==> r == spec_paired_lit(PairStat::Correl, res, N::spec_from_int(0))),
    decreases args_size(args@), 7nat,
{
    let pairs = match collect_pairs(ctx, args, 0, 1) {
        Ok(p) => p,
        Err(k) => {
            return Value::Error(k);
        },
    };
    match sums(&pairs) {
        Some(s) => {
            if positive(s.sxx) && positive(s.syy) {
                finite_or_num(s.sxy.over(s.sxx.times(s.syy).square_root()))
            } else {
                Value::Error(ErrKind::Div0)
            }
        },
        None => Value::Error(ErrKind::Div0),
    }
}

/// What [`rsq_fn`] is stated to give, for a context `ctx` and arguments `args`.
pub open spec fn rsq_fn_gives<'r, N: Number, R: Resolver<N>>(ctx: EvalCtx<'r, R>, args: Seq<Expr<N>>, r: Value<N>) -> bool {
    &&& r is Number || r is Error
    &&& room(ctx) ==> (lit_pairs(args[0], args[1]) matches Some(res) ==> r == spec_paired_lit(PairStat::Rsq, res, N::spec_from_int(0)))
}

/// `RSQ(known_ys, known_xs)` — the squared correlation `Sxy² / (Sxx·Syy)`; errors as `CORREL`.
pub fn rsq_fn<N: Number, R: Resolver<N>>(ctx: &mut EvalCtx<R>, args: &[Expr<N>]) -> (r: Value<N>)
    requires
        args.len() == 2,
    ensures
        restored(*old(ctx), *final(ctx)),
        r is Number || r is Error,
        room(*old(ctx)) ==> (lit_pairs(args[0], args[1]) matches Some(res) ==> r == spec_paired_lit(PairStat::Rsq, res, N::spec_from_int(0))),
    decreases args_size(args@), 7nat,
{
    let pairs = match collect_pairs(ctx, args, 0, 1) {
        Ok(p) => p,
        Err(k) => {
            return Value::Error(k);
        },
    };
    match sums(&pairs) {
        Some(s) => {
            if positive(s.sxx) && positive(s.syy) {
                finite_or_num(s.sxy.times(s.sxy).over(s.sxx.times(s.syy)))
            } else {
                Value::Error(ErrKind::Div0)
            }
        },
        None => Value::Error(ErrKind::Div0),
    }
}

/// The population covariance `Sxy / n`; different cell counts are `#N/A`, no pair `#DIV/0!`.
pub fn covariance_p_fn<N: Number, R: Resolver<N>>(ctx: &mut EvalCtx<R>, args: &[Expr<N>]) -> (r: Value<N>)
    requires
        args.len() == 2,
    ensures
        restored(*old(ctx), *final(ctx)),
        r is Number || r is Error,
        room(*old(ctx)) ==> (lit_pairs(args[0], args[1]) matches Some(res) ==> r == spec_paired_lit(PairStat::CovP, res, N::spec_from_int(0))),
    decreases args_size(args@), 7nat,
{
    let pairs = match collect_pairs(ctx, args, 0, 1) {
        Ok(p) => p,
        Err(k) => {
            return Value::Error(k);
        },
    };
    match sums(&pairs) {
        Some(s) => finite_or_num(s.sxy.over(len_number(s.n))),
        None => Value::Error(ErrKind::Div0),
    }
}

/// The sample covariance `Sxy / (n − 1)`; different cell counts are `#N/A`, fewer than two pairs
/// `#DIV/0!`.
pub fn covariance_s_fn<N: Number, R: Resolver<N>>(ctx: &mut EvalCtx<R>, args: &[Expr<N>]) -> (r: Value<N>)
    requires
        args.len() == 2,
    ensures
        restored(*old(ctx), *final(ctx)),
        r is Number || r is Error,
        room(*old(ctx)) ==> (lit_pairs(args[0], args[1]) matches Some(res) ==> r == spec_paired_lit(PairStat::CovS, res, N::spec_from_int(0))),
    decreases args_size(args@), 7nat,
{
    let pairs = match collect_pairs(ctx, args, 0, 1) {
        Ok(p) => p,
        Err(k) => {
            return Value::Error(k);
        },
    };
    match sums(&pairs) {
        Some(s) => {
            if s.n >= 2 {
                finite_or_num(s.sxy.over(len_number::<N>(s.n).minus(N::from_int(1))))
            } else {
                Value::Error(ErrKind::Div0)
            }
        },
        None => Value::Error(ErrKind::Div0),
    }
}

/// What [`slope_fn`] is stated to give, for a context `ctx` and arguments `args`.
pub open spec fn slope_fn_gives<'r, N: Number, R: Resolver<N>>(ctx: EvalCtx<'r, R>, args: Seq<Expr<N>>, r: Value<N>) -> bool {
    &&& r is Number || r is Error
    &&& room(ctx) ==> (lit_pairs(args[1], args[0]) matches Some(res) ==> r == spec_paired_lit(PairStat::Slope, res, N::spec_from_int(0)))
}

/// `SLOPE(known_ys, known_xs)` — the least-squares slope `Sxy / Sxx` of `y` on `x`; different cell
/// counts are `#N/A`, and no pair or no `x` spread is `#DIV/0!`.
pub fn slope_fn<N: Number, R: Resolver<N>>(ctx: &mut EvalCtx<R>, args: &[Expr<N>]) -> (r: Value<N>)
    requires
        args.len() == 2,
    ensures
        restored(*old(ctx), *final(ctx)),
        r is Number || r is Error,
        room(*old(ctx)) ==> (lit_pairs(args[1], args[0]) matches Some(res) ==> r == spec_paired_lit(PairStat::Slope, res, N::spec_from_int(0))),
    decreases args_size(args@), 7nat,
{
    let pairs = match collect_pairs(ctx, args, 1, 0) {
        Ok(p) => p,
        Err(k) => {
            return Value::Error(k);
        },
    };
    match sums(&pairs) {
        Some(s) => {
            if positive(s.sxx) {
                finite_or_num(s.sxy.over(s.sxx))
            } else {
                Value::Error(ErrKind::Div0)
            }
        },
        None => Value::Error(ErrKind::Div0),
    }
}

/// What [`intercept_fn`] is stated to give, for a context `ctx` and arguments `args`.
pub open spec fn intercept_fn_gives<'r, N: Number, R: Resolver<N>>(ctx: EvalCtx<'r, R>, args: Seq<Expr<N>>, r: Value<N>) -> bool {
    &&& r is Number || r is Error
    &&& room(ctx) ==> (lit_pairs(args[1], args[0]) matches Some(res) ==> r == spec_paired_lit(PairStat::Intercept, res, N::spec_from_int(0)))
}

/// `INTERCEPT(known_ys, known_xs)` — the regression intercept `ȳ − slope·x̄`; errors as `SLOPE`.
pub fn intercept_fn<N: Number, R: Resolver<N>>(ctx: &mut EvalCtx<R>, args: &[Expr<N>]) -> (r: Value<N>)
    requires
        args.len() == 2,
    ensures
        restored(*old(ctx), *final(ctx)),
        r is Number || r is Error,
        room(*old(ctx)) ==> (lit_pairs(args[1], args[0]) matches Some(res) ==> r == spec_paired_lit(PairStat::Intercept, res, N::spec_from_int(0))),
    decreases args_size(args@), 7nat,
{
    let pairs = match collect_pairs(ctx, args, 1, 0) {
        Ok(p) => p,
        Err(k) => {
            return Value::Error(k);
        },
    };
    match sums(&pairs) {
        Some(s) => {
            if positive(s.sxx) {
                finite_or_num(s.my.minus(s.sxy.over(s.sxx).times(s.mx)))
            } else {
                Value::Error(ErrKind::Div0)
            }
        },
        None => Value::Error(ErrKind::Div0),
    }
}

/// What [`forecast_fn`] is stated to give, for a context `ctx` and arguments `args`.
pub open spec fn forecast_fn_gives<'r, N: Number, R: Resolver<N>>(ctx: EvalCtx<'r, R>, args: Seq<Expr<N>>, r: Value<N>) -> bool {
    &&& r is Number || r is Error
    &&& room(ctx) ==> (lit_num(args[0]) matches Some(x0) ==> (lit_pairs(args[2], args[1]) matches Some(res)
        ==> r == spec_paired_lit(PairStat::Forecast, res, x0)))
}

/// `FORECAST(x, known_ys, known_xs)` — the fitted line at `x`, `intercept + slope·x`; errors as
/// `SLOPE`, and `x`'s own error first.
pub fn forecast_fn<N: Number, R: Resolver<N>>(ctx: &mut EvalCtx<R>, args: &[Expr<N>]) -> (r: Value<N>)
    requires
        args.len() == 3,
    ensures
        restored(*old(ctx), *final(ctx)),
        r is Number || r is Error,
        room(*old(ctx)) ==> (lit_num(args[0]) matches Some(x0) ==> (lit_pairs(args[2], args[1]) matches Some(res)
            ==> r == spec_paired_lit(PairStat::Forecast, res, x0))),
    decreases args_size(args@), 7nat,
{
    proof {
        lemma_arg_size(args@, 0);
    }
    let x0 = match coerce_num(&scalarize(ctx.eval(&args[0]))) {
        Ok(n) => n,
        Err(k) => {
            return Value::Error(k);
        },
    };
    let pairs = match collect_pairs(ctx, args, 2, 1) {
        Ok(p) => p,
        Err(k) => {
            return Value::Error(k);
        },
    };
    match sums(&pairs) {
        Some(s) => {
            if positive(s.sxx) {
                let slope = s.sxy.over(s.sxx);
                finite_or_num(s.my.minus(slope.times(s.mx)).plus(slope.times(x0)))
            } else {
                Value::Error(ErrKind::Div0)
            }
        },
        None => Value::Error(ErrKind::Div0),
    }
}

/// The numbers of a cell run in order; an error propagates and other cells are dropped.
pub open spec fn numbers_in_order<N>(s: Seq<Value<N>>) -> Result<Seq<N>, ErrKind>
    decreases s.len(),
{
    if s.len() == 0 {
        Ok(Seq::empty())
    } else {
        match numbers_in_order(s.drop_last()) {
            Err(k) => Err(k),
            Ok(p) => match s.last() {
                Value::Error(k) => Err(k),
                Value::Number(n) => Ok(p.push(n)),
                _ => Ok(p),
            },
        }
    }
}

/// Two runs that hold the same values have the same numbers in order.
pub proof fn lemma_same_cells_numbers<N>(x: Seq<Value<N>>, y: Seq<Value<N>>)
    requires
        same_cells(x, y),
    ensures
        numbers_in_order(x) == numbers_in_order(y),
    decreases x.len(),
{
    if x.len() > 0 {
        lemma_same_cells_numbers(x.drop_last(), y.drop_last());
        assert(same_value(x.last(), y.last()));
        match x.last() {
            Value::Array(..) => {
                assert(y.last() is Array);
            },
            _ => {
                assert(x.last() == y.last());
            },
        }
    }
}

/// Once a prefix holds an error, the whole run reports it.
pub proof fn lemma_numbers_error<N>(s: Seq<Value<N>>, n: int)
    requires
        0 <= n <= s.len(),
        numbers_in_order(s.subrange(0, n)) is Err,
    ensures
        numbers_in_order(s) == numbers_in_order(s.subrange(0, n)),
    decreases s.len() - n,
{
    if n < s.len() {
        assert(s.subrange(0, n + 1).drop_last() == s.subrange(0, n));
        lemma_numbers_error(s, n + 1);
    } else {
        assert(s.subrange(0, n) == s);
    }
}

/// The numbers of a cell run in order (see [`numbers_in_order`]).
pub fn ordered_numbers_of<N: Number>(cells: &Vec<Value<N>>) -> (r: Result<Vec<N>, ErrKind>)
    ensures
        match r {
            Ok(v) => numbers_in_order(cells@) == Ok::<Seq<N>, ErrKind>(v@),
            Err(k) => numbers_in_order(cells@) == Err::<Seq<N>, ErrKind>(k),
        },
{
    let mut out: Vec<N> = Vec::new();
    let mut i: usize = 0;
    while i < cells.len()
        invariant
            i <= cells@.len(),
            numbers_in_order(cells@.subrange(0, i as int)) == Ok::<Seq<N>, ErrKind>(out@),
        decreases cells@.len() - i,
    {
        proof {
            assert(cells@.subrange(0, i + 1).drop_last() == cells@.subrange(0, i as int));
        }
        match &cells[i] {
            Value::Error(k) => {
                proof {
                    lemma_numbers_error(cells@, i + 1);
                }
                return Err(*k);
            },
            Value::Number(n) => out.push(*n),
            _ => {},
        }
        i = i + 1;
    }
    proof {
        assert(cells@.subrange(0, cells@.len() as int) == cells@);
    }
    Ok(out)
}

/// The sum of the first `k` numbers, in order from zero.
pub open spec fn seq_sum<N: Number>(s: Seq<N>, k: int) -> N
    decreases k,
{
    if k <= 0 { N::spec_from_int(0) } else { seq_sum(s, k - 1).spec_plus(s[k - 1]) }
}

/// `Σ(x−mx)²` and `Σ(x−mx)(y−my)` over the first `k` points, in order.
pub open spec fn centred_xy<N: Number>(xs: Seq<N>, ys: Seq<N>, mx: N, my: N, k: int) -> (N, N)
    decreases k,
{
    if k <= 0 {
        (N::spec_from_int(0), N::spec_from_int(0))
    } else {
        let c = centred_xy(xs, ys, mx, my, k - 1);
        let dx = xs[k - 1].spec_minus(mx);
        (c.0.spec_plus(dx.spec_times(dx)), c.1.spec_plus(dx.spec_times(ys[k - 1].spec_minus(my))))
    }
}

/// `Σx²` and `Σxy` over the first `k` points, in order.
pub open spec fn raw_xy<N: Number>(xs: Seq<N>, ys: Seq<N>, k: int) -> (N, N)
    decreases k,
{
    if k <= 0 {
        (N::spec_from_int(0), N::spec_from_int(0))
    } else {
        let c = raw_xy(xs, ys, k - 1);
        (c.0.spec_plus(xs[k - 1].spec_times(xs[k - 1])), c.1.spec_plus(xs[k - 1].spec_times(ys[k - 1])))
    }
}

/// The least-squares `(slope, intercept)` of `ys` on `xs` (see [`fit_line`]).
pub open spec fn spec_fit<N: Number>(xs: Seq<N>, ys: Seq<N>, use_const: bool) -> (N, N) {
    let n = xs.len() as int;
    if use_const {
        let nf = N::spec_from_int(clamp_count(n));
        let mx = seq_sum(xs, n).spec_over(nf);
        let my = seq_sum(ys, n).spec_over(nf);
        let c = centred_xy(xs, ys, mx, my, n);
        let slope = c.1.spec_over(c.0);
        (slope, my.spec_minus(slope.spec_times(mx)))
    } else {
        let c = raw_xy(xs, ys, n);
        (c.1.spec_over(c.0), N::spec_from_int(0))
    }
}

/// Two runs of equal length as a paired sample.
pub open spec fn zip_pairs<N>(xs: Seq<N>, ys: Seq<N>) -> Seq<(N, N)> {
    Seq::new(xs.len(), |i: int| (xs[i], ys[i]))
}

/// The sums over a paired sample are the sums over its two sides.
proof fn lemma_zip_sums<N: Number>(xs: Seq<N>, ys: Seq<N>, mx: N, my: N, k: int)
    requires
        xs.len() == ys.len(),
        0 <= k <= xs.len(),
    ensures
        sum_side(zip_pairs(xs, ys), k, true) == seq_sum(xs, k),
        sum_side(zip_pairs(xs, ys), k, false) == seq_sum(ys, k),
        centred(zip_pairs(xs, ys), mx, my, k).0 == centred_xy(xs, ys, mx, my, k).0,
        centred(zip_pairs(xs, ys), mx, my, k).2 == centred_xy(xs, ys, mx, my, k).1,
    decreases k,
{
    if k > 0 {
        lemma_zip_sums(xs, ys, mx, my, k - 1);
    }
}

/// `SLOPE`, `INTERCEPT` and `FORECAST` describe the least-squares line `TREND` fits: over the pairs
/// of two equal-length runs with a spread in `x`, `SLOPE` is the fitted slope, `INTERCEPT` the fitted
/// intercept, and `FORECAST` at `x0` the fitted line's value `intercept + slope·x0` there.
pub proof fn law_slope_intercept_fit_line<N: Number>(xs: Seq<N>, ys: Seq<N>, x0: N)
    requires
        xs.len() == ys.len(),
        xs.len() > 0,
        spec_positive(spec_sums(zip_pairs(xs, ys)).sxx),
    ensures
        spec_paired(PairStat::Slope, zip_pairs(xs, ys), x0) == spec_finite_or_num(spec_fit(xs, ys, true).0),
        spec_paired(PairStat::Intercept, zip_pairs(xs, ys), x0) == spec_finite_or_num(spec_fit(xs, ys, true).1),
        spec_paired(PairStat::Forecast, zip_pairs(xs, ys), x0)
            == spec_finite_or_num(spec_fit(xs, ys, true).1.spec_plus(spec_fit(xs, ys, true).0.spec_times(x0))),
{
    let n = xs.len() as int;
    let nf = N::spec_from_int(clamp_count(n));
    let mx = seq_sum(xs, n).spec_over(nf);
    let my = seq_sum(ys, n).spec_over(nf);
    lemma_zip_sums(xs, ys, mx, my, n);
    assert(zip_pairs(xs, ys).len() == n);
}

/// The prediction of a fitted line at one cell (see [`predict_cell`]).
pub open spec fn spec_predict<N: Number>(slope: N, intercept: N, c: Value<N>) -> Value<N> {
    match c {
        Value::Error(k) => Value::Error(k),
        Value::Number(x) => spec_finite_or_num(intercept.spec_plus(slope.spec_times(x))),
        _ => Value::Error(ErrKind::Value),
    }
}

/// Fit `y = intercept + slope·x` by least squares over equal-length runs; without a constant the
/// line goes through the origin (`slope = Σxy / Σx²`, intercept 0). A degenerate fit gives a
/// non-finite slope, which the predictions demote to `#NUM!`.
pub fn fit_line<N: Number>(xs: &Vec<N>, ys: &Vec<N>, use_const: bool) -> (r: (N, N))
    requires
        xs@.len() == ys@.len(),
        xs@.len() > 0,
    ensures
        !use_const ==> r.1 == N::spec_from_int(0),
        r == spec_fit(xs@, ys@, use_const),
{
    let n = xs.len();
    if use_const {
        let nf = len_number::<N>(n);
        let mut tx = N::from_int(0);
        let mut ty = N::from_int(0);
        let mut i: usize = 0;
        while i < n
            invariant
                n == xs@.len(),
                n == ys@.len(),
                i <= n,
                tx == seq_sum(xs@, i as int),
                ty == seq_sum(ys@, i as int),
            decreases n - i,
        {
            tx = tx.plus(xs[i]);
            ty = ty.plus(ys[i]);
            i = i + 1;
        }
        let mx = tx.over(nf);
        let my = ty.over(nf);
        let mut sxx = N::from_int(0);
        let mut sxy = N::from_int(0);
        let mut j: usize = 0;
        while j < n
            invariant
                n == xs@.len(),
                n == ys@.len(),
                j <= n,
                (sxx, sxy) == centred_xy(xs@, ys@, mx, my, j as int),
            decreases n - j,
        {
            let dx = xs[j].minus(mx);
            sxx = sxx.plus(dx.times(dx));
            sxy = sxy.plus(dx.times(ys[j].minus(my)));
            j = j + 1;
        }
        let slope = sxy.over(sxx);
        (slope, my.minus(slope.times(mx)))
    } else {
        let mut sxx = N::from_int(0);
        let mut sxy = N::from_int(0);
        let mut j: usize = 0;
        while j < n
            invariant
                n == xs@.len(),
                n == ys@.len(),
                j <= n,
                (sxx, sxy) == raw_xy(xs@, ys@, j as int),
            decreases n - j,
        {
            sxx = sxx.plus(xs[j].times(xs[j]));
            sxy = sxy.plus(xs[j].times(ys[j]));
            j = j + 1;
        }
        (sxy.over(sxx), N::from_int(0))
    }
}

/// The prediction of a fitted line at one `new_xs` cell: a number maps onto the line (a non-finite
/// value is `#NUM!`), an error stays, anything else is `#VALUE!`.
pub fn predict_cell<N: Number>(slope: N, intercept: N, c: &Value<N>) -> (r: Value<N>)
    ensures
        *c matches Value::Error(k) ==> r == Value::<N>::Error(k),
        !(*c is Error) && !(*c is Number) ==> r == Value::<N>::Error(ErrKind::Value),
        *c is Number ==> (r is Number || r == Value::<N>::Error(ErrKind::Num)),
        r == spec_predict(slope, intercept, *c),
{
    match c {
        Value::Error(k) => Value::Error(*k),
        Value::Number(x) => finite_or_num(intercept.plus(slope.times(*x))),
        _ => Value::Error(ErrKind::Value),
    }
}

/// What `TREND` gives over literal array arguments (see [`trend_fn`]): the `known_ys` numbers
/// (none is `#REF!`), the `known_xs` numbers (default `1…n`; a different count is `#REF!`), the
/// `const` flag, and the fitted line's predictions at `new_xs` (in its shape), or at `known_xs` (in
/// `known_ys`' shape when it has one cell per point, else one column).
pub open spec fn trend_outcome<N: Number>(args: Seq<Expr<N>>, cf: Result<bool, ErrKind>, r: Value<N>) -> bool {
    match numbers_in_order(lit_cells(args[0])) {
        Err(k) => r == Value::<N>::Error(k),
        Ok(ys) => if ys.len() == 0 {
            r == Value::<N>::Error(ErrKind::Ref)
        } else {
            match (if args.len() >= 2 { numbers_in_order(lit_cells(args[1])) } else {
                Ok(Seq::new(ys.len(), |i: int| N::spec_from_int(clamp_count(i + 1))))
            }) {
                Err(k) => r == Value::<N>::Error(k),
                Ok(xs) => if xs.len() != ys.len() {
                    r == Value::<N>::Error(ErrKind::Ref)
                } else {
                    match cf {
                        Err(k) => r == Value::<N>::Error(k),
                        Ok(use_const) => {
                            let (slope, intercept) = spec_fit(xs, ys, use_const);
                            if args.len() >= 3 {
                                let nc = lit_cells(args[2]);
                                r matches Value::Array(s, out) && s == lit_shape(args[2]) && out@.len() == nc.len()
                                    && forall|i: int| 0 <= i < nc.len() ==> #[trigger] out@[i] == spec_predict(slope, intercept, nc[i])
                            } else {
                                let ysh = lit_shape(args[0]);
                                r matches Value::Array(s, out) && out@.len() == xs.len()
                                    && s == (if ysh.rows * ysh.cols == xs.len() { ysh } else { Shape { rows: xs.len() as u32, cols: 1 } })
                                    && forall|i: int| 0 <= i < xs.len() ==> #[trigger] out@[i] == spec_finite_or_num(intercept.spec_plus(slope.spec_times(xs[i])))
                            }
                        },
                    }
                },
            }
        },
    }
}

/// Whether `r` is the flag argument `args[i]` gives, evaluated in `ctx` (`default` when omitted).
pub open spec fn flag_value<'r, N: Number, R: Resolver<N>>(ctx: EvalCtx<'r, R>, args: Seq<Expr<N>>, i: int, default: bool,
    r: Result<bool, ErrKind>) -> bool {
    if i >= args.len() {
        r == Ok::<bool, ErrKind>(default)
    } else {
        exists|v: Value<N>| #[trigger] arg_value(ctx, args[i], v) && r == bool_of_scalar(spec_scalarize(v))
    }
}

/// The default `known_xs` of `TREND`: `1…n`.
pub open spec fn default_xs<N: Number>(n: nat) -> Seq<N> {
    Seq::new(n, |i: int| N::spec_from_int(clamp_count(i + 1)))
}

/// Whether `r` is what `TREND` gives once its `known_ys` and `known_xs` numbers are read: `#REF!`
/// for different counts; then the `const` flag `args[3]` (its error propagates) and the fitted
/// line's predictions at the cells of `new_xs` (`args[2]`, in its shape; its error propagates), or
/// at the known `x`s, shaped like `known_ys` (`args[0]`, evaluated again) when it has one cell per
/// point, else one column.
pub open spec fn trend_rest<'r, N: Number, R: Resolver<N>>(ctx: EvalCtx<'r, R>, args: Seq<Expr<N>>, ys: Seq<N>, xs: Seq<N>, r: Value<N>) -> bool {
    if xs.len() != ys.len() {
        r == Value::<N>::Error(ErrKind::Ref)
    } else {
        exists|cf: Result<bool, ErrKind>| #[trigger] flag_value(ctx, args, 3, true, cf) && match cf {
            Err(k) => r == Value::<N>::Error(k),
            Ok(use_const) => {
                let (slope, intercept) = spec_fit(xs, ys, use_const);
                if args.len() >= 3 {
                    exists|w2: Value<N>| #[trigger] arg_value(ctx, args[2], w2) && match spec_block(w2) {
                        Err(k) => r == Value::<N>::Error(k),
                        Ok(nb) => r matches Value::Array(s, out) && s == (Shape { rows: nb.0, cols: nb.1 }) && out@.len() == nb.2.len()
                            && forall|i: int| 0 <= i < nb.2.len() ==> #[trigger] out@[i] == spec_predict(slope, intercept, nb.2[i]),
                    }
                } else {
                    exists|w0: Value<N>| #[trigger] arg_value(ctx, args[0], w0) && match spec_block(w0) {
                        Err(k) => r == Value::<N>::Error(k),
                        Ok(yb) => r matches Value::Array(s, out) && out@.len() == xs.len()
                            && s == (if yb.0 * yb.1 == xs.len() { Shape { rows: yb.0, cols: yb.1 } } else { Shape { rows: xs.len() as u32, cols: 1 } })
                            && forall|i: int| 0 <= i < xs.len() ==> #[trigger] out@[i] == spec_finite_or_num(intercept.spec_plus(slope.spec_times(xs[i]))),
                    }
                }
            },
        }
    }
}

/// What `TREND` gives over its evaluated arguments: the numbers of `known_ys` (`args[0]`; an error
/// propagates, none is `#REF!`), of `known_xs` (`args[1]`, default `1…n`), then [`trend_rest`].
pub open spec fn trend_read<'r, N: Number, R: Resolver<N>>(ctx: EvalCtx<'r, R>, args: Seq<Expr<N>>, r: Value<N>) -> bool {
    exists|w: Value<N>| #[trigger] arg_value(ctx, args[0], w) && match spec_block(w) {
        Err(k) => r == Value::<N>::Error(k),
        Ok(yb) => match numbers_in_order(yb.2) {
            Err(k) => r == Value::<N>::Error(k),
            Ok(ys) => if ys.len() == 0 {
                r == Value::<N>::Error(ErrKind::Ref)
            } else if args.len() >= 2 {
                exists|w1: Value<N>| #[trigger] arg_value(ctx, args[1], w1) && match spec_block(w1) {
                    Err(k) => r == Value::<N>::Error(k),
                    Ok(xb) => match numbers_in_order(xb.2) {
                        Err(k) => r == Value::<N>::Error(k),
                        Ok(xs) => trend_rest(ctx, args, ys, xs, r),
                    },
                }
            } else {
                trend_rest(ctx, args, ys, default_xs(ys.len()), r)
            },
        },
    }
}

/// What [`trend_fn`] is stated to give, for a context `ctx` and arguments `args`.
pub open spec fn trend_fn_gives<'r, N: Number, R: Resolver<N>>(ctx: EvalCtx<'r, R>, args: Seq<Expr<N>>, r: Value<N>) -> bool {
    &&& r is Array || r is Error
    &&& room(ctx) && lit_block(args[0]) is Some && (args.len() >= 2 ==> lit_block(args[1]) is Some)
        && (args.len() >= 3 ==> lit_block(args[2]) is Some) ==> (lit_flag(args, 3, true) matches Some(cf)
        ==> trend_outcome(args, cf, r))
}

/// What [`trend_fn`] is stated to give for the values its arguments evaluate to in `ctx`.
pub open spec fn trend_fn_reads<'r, N: Number, R: Resolver<N>>(ctx: EvalCtx<'r, R>, args: Seq<Expr<N>>, r: Value<N>) -> bool {
    &&& trend_read(ctx, args, r)
}

/// `TREND(known_ys, [known_xs], [new_xs], [const])` — the least-squares line of the numeric
/// `known_ys` on `known_xs` (default `1..=n`; see [`fit_line`]) evaluated at every `new_xs` cell (see
/// [`predict_cell`]), in `new_xs`'s shape; without `new_xs`, at the known `x`s, shaped like
/// `known_ys` when that block is all numbers, else as a column. No `y`, or `x`s and `y`s of
/// different counts, is `#REF!`.
#[verifier::spinoff_prover]
#[verifier::rlimit(80)]
pub fn trend_fn<N: Number, R: Resolver<N>>(ctx: &mut EvalCtx<R>, args: &[Expr<N>]) -> (r: Value<N>)
    requires
        1 <= args.len() <= 4,
    ensures
        restored(*old(ctx), *final(ctx)),
        r is Array || r is Error,
        room(*old(ctx)) && lit_block(args[0]) is Some && (args@.len() >= 2 ==> lit_block(args[1]) is Some)
            && (args@.len() >= 3 ==> lit_block(args[2]) is Some) ==> (lit_flag(args@, 3, true) matches Some(cf)
            ==> trend_outcome(args@, cf, r)),
        trend_read(*old(ctx), args@, r),
    decreases args_size(args@), 7nat,
{
    proof {
        lemma_arg_size(args@, 0);
    }
    let ghost lits = room(*old(ctx)) && lit_block(args@[0]) is Some && (args@.len() >= 2 ==> lit_block(args@[1]) is Some)
        && (args@.len() >= 3 ==> lit_block(args@[2]) is Some) && lit_flag(args@, 3, true) is Some;
    let ry = block(ctx, &args[0]);
    let ghost w = choose|w: Value<N>| #[trigger] arg_value(*old(ctx), args@[0], w) && block_result(ry) == spec_block(w);
    proof {
        assert(arg_value(*old(ctx), args@[0], w));
        lemma_restored_same(*old(ctx), *ctx);
    }
    let ys = match ry {
        Ok((_, _, cells)) => {
            proof {
                if lits {
                    lemma_same_flat(cells@, lit_cells(args@[0]));
                }
            }
            match ordered_numbers_of(&cells) {
                Ok(v) => v,
                Err(k) => {
                    return Value::Error(k);
                },
            }
        },
        Err(k) => {
            return Value::Error(k);
        },
    };
    if ys.len() == 0 {
        return Value::Error(ErrKind::Ref);
    }
    let ghost mut w1: Value<N> = w;
    let xs = if args.len() >= 2 {
        proof {
            lemma_arg_size(args@, 1);
        }
        let rx = block(ctx, &args[1]);
        proof {
            w1 = choose|w1: Value<N>| #[trigger] arg_value(*old(ctx), args@[1], w1) && block_result(rx) == spec_block(w1);
            assert(arg_value(*old(ctx), args@[1], w1));
        }
        match rx {
            Ok((_, _, cells)) => {
                proof {
                    if lits {
                        lemma_same_flat(cells@, lit_cells(args@[1]));
                    }
                }
                match ordered_numbers_of(&cells) {
                    Ok(v) => v,
                    Err(k) => {
                        return Value::Error(k);
                    },
                }
            },
            Err(k) => {
                return Value::Error(k);
            },
        }
    } else {
        let mut v: Vec<N> = Vec::new();
        let mut i: usize = 0;
        while i < ys.len()
            invariant
                i <= ys@.len(),
                v@.len() == i,
                v@ == Seq::new(i as nat, |k: int| N::spec_from_int(clamp_count(k + 1))),
            decreases ys@.len() - i,
        {
            v.push(len_number(i + 1));
            proof {
                assert(v@ =~= Seq::new((i + 1) as nat, |k: int| N::spec_from_int(clamp_count(k + 1))));
            }
            i = i + 1;
        }
        proof {
            assert(v@ =~= default_xs::<N>(ys@.len()));
        }
        v
    };
    proof {
        lemma_restored_same(*old(ctx), *ctx);
    }
    if xs.len() != ys.len() {
        return Value::Error(ErrKind::Ref);
    }
    let rc = opt_bool(ctx, args, 3, true);
    proof {
        if 3 < args.len() {
            let v = choose|v: Value<N>| #[trigger] arg_value(*old(ctx), args@[3], v) && rc == bool_of_scalar(spec_scalarize(v));
            assert(arg_value(*old(ctx), args@[3], v));
        }
        assert(flag_value(*old(ctx), args@, 3, true, rc));
        lemma_restored_same(*old(ctx), *ctx);
    }
    let use_const = match rc {
        Ok(b) => b,
        Err(k) => {
            return Value::Error(k);
        },
    };
    let (slope, intercept) = fit_line(&xs, &ys, use_const);
    if args.len() >= 3 {
        proof {
            lemma_arg_size(args@, 2);
        }
        let rn = block(ctx, &args[2]);
        let ghost w2 = choose|w2: Value<N>| #[trigger] arg_value(*old(ctx), args@[2], w2) && block_result(rn) == spec_block(w2);
        proof {
            assert(arg_value(*old(ctx), args@[2], w2));
        }
        let (nr, nc, cells) = match rn {
            Ok(t) => t,
            Err(k) => {
                return Value::Error(k);
            },
        };
        proof {
            if lits {
                lemma_same_flat(cells@, lit_cells(args@[2]));
            }
        }
        let mut out: Vec<Value<N>> = Vec::new();
        let mut i: usize = 0;
        while i < cells.len()
            invariant
                i <= cells@.len(),
                out@.len() == i,
                forall|k: int| 0 <= k < i ==> #[trigger] out@[k] == spec_predict(slope, intercept, cells@[k]),
            decreases cells@.len() - i,
        {
            out.push(predict_cell(slope, intercept, &cells[i]));
            i = i + 1;
        }
        Value::Array(Shape { rows: nr, cols: nc }, out)
    } else {
        let ry2 = block(ctx, &args[0]);
        let ghost w0 = choose|w0: Value<N>| #[trigger] arg_value(*old(ctx), args@[0], w0) && block_result(ry2) == spec_block(w0);
        proof {
            assert(arg_value(*old(ctx), args@[0], w0));
        }
        let (yr, yc) = match ry2 {
            Ok((yr, yc, _)) => (yr, yc),
            Err(k) => {
                return Value::Error(k);
            },
        };
        let mut out: Vec<Value<N>> = Vec::new();
        let mut i: usize = 0;
        while i < xs.len()
            invariant
                i <= xs@.len(),
                out@.len() == i,
                forall|k: int| 0 <= k < i ==> #[trigger] out@[k] == spec_finite_or_num(intercept.spec_plus(slope.spec_times(xs@[k]))),
            decreases xs@.len() - i,
        {
            out.push(finite_or_num(intercept.plus(slope.times(xs[i]))));
            i = i + 1;
        }
        let (yr64, yc64) = (yr as u64, yc as u64);
        assert(yr64 * yc64 <= 0xffff_ffffu64 * 0xffff_ffffu64) by (nonlinear_arith)
            requires
                yr64 <= 0xffff_ffffu64,
                yc64 <= 0xffff_ffffu64,
        ;
        let area: u64 = yr64 * yc64;
        let (rows, cols) = if area == out.len() as u64 { (yr, yc) } else { (out.len() as u32, 1u32) };
        Value::Array(Shape { rows, cols }, out)
    }
}

} // verus!
