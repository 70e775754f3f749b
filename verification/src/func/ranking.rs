//! Ranking and positional statistics: the average-rank tie rule (`RANK.AVG`), the exclusive
//! percentile and quartile, `PERCENTRANK` (inclusive and exclusive), the all-modes array
//! (`MODE.MULT`) and the binning array `FREQUENCY`.

use vstd::prelude::*;
use crate::eval::{coerce_num, is_zero, less_than, number_order, restored, scalarize, spec_is_zero, spec_number_order, EvalCtx};
use crate::expr::{args_size, lemma_arg_size, Expr, Resolver};
use crate::func::aggregation::{clamp_count, len_number};
use crate::func::helpers::{block, collect_numbers, finite_or_num, lit_arg, lit_array_numbers, lit_num, opt_num, room, spec_finite_or_num};
use crate::func::order_stats::{collect_one, percentile_exclusive, quartile_exclusive, spec_percentile_exclusive, spec_quartile_exclusive, tally};
use crate::func::regression::{lemma_same_cells_numbers, numbers_in_order, ordered_numbers_of};
use crate::func::stats::{rank_better_count, sorted, spec_sorted};
use crate::value::{ErrKind, Number, Order, Shape, Value};

verus! {

/// Whether `y` ranks strictly better than `x`: below it when ascending, above it otherwise.
pub open spec fn ranks_better<N: Number>(y: N, x: N, ascending: bool) -> bool {
    let o = spec_number_order(y, x);
    (ascending && o == Order::Less) || (!ascending && o == Order::Greater)
}

/// How many of the first `k` numbers rank strictly better than `x`.
pub open spec fn better_count<N: Number>(nums: Seq<N>, x: N, ascending: bool, k: int) -> nat
    decreases k,
{
    if k <= 0 { 0 } else { better_count(nums, x, ascending, k - 1) + if ranks_better(nums[k - 1], x, ascending) { 1nat } else { 0nat } }
}

/// How many of the first `k` numbers order equal to `x` (unordered counts as equal).
pub open spec fn equal_count<N: Number>(nums: Seq<N>, x: N, k: int) -> nat
    decreases k,
{
    if k <= 0 { 0 } else { equal_count(nums, x, k - 1) + if spec_number_order(nums[k - 1], x) == Order::Equal { 1nat } else { 0nat } }
}

/// `RANK` and `RANK.AVG` count the same numbers as ranking strictly better than `x`, and among the
/// first `k` numbers those below `x`, those above it and those equal to it (unordered counting as
/// equal) make up all `k`: the ascending and descending ranks of `x` add up to `k + 2` less the
/// count of its equals.
pub proof fn law_rank_counts_partition<N: Number>(s: Seq<N>, x: N, k: int)
    requires
        0 <= k <= s.len(),
    ensures
        rank_better_count(s, x, true, k) == better_count(s, x, true, k),
        rank_better_count(s, x, false, k) == better_count(s, x, false, k),
        better_count(s, x, true, k) + better_count(s, x, false, k) + equal_count(s, x, k) == k,
    decreases k,
{
    if k > 0 {
        law_rank_counts_partition(s, x, k - 1);
        N::law_order(s[k - 1], x, x);
        N::law_order(x, s[k - 1], x);
    }
}

/// How many of `nums` rank strictly better than `x` (below it when ascending, above it otherwise),
/// and how many equal it.
pub fn better_and_equal<N: Number>(nums: &Vec<N>, x: N, ascending: bool) -> (r: (usize, usize))
    ensures
        r.0 <= nums@.len(),
        r.1 <= nums@.len(),
        r.0 == better_count(nums@, x, ascending, nums@.len() as int),
        r.1 == equal_count(nums@, x, nums@.len() as int),
{
    let mut better: usize = 0;
    let mut equal: usize = 0;
    let mut i: usize = 0;
    while i < nums.len()
        invariant
            i <= nums@.len(),
            better <= i,
            equal <= i,
            better == better_count(nums@, x, ascending, i as int),
            equal == equal_count(nums@, x, i as int),
        decreases nums@.len() - i,
    {
        let o = number_order(nums[i], x);
        if ascending && o == Order::Less || !ascending && o == Order::Greater {
            better = better + 1;
        }
        if o == Order::Equal {
            equal = equal + 1;
        }
        i = i + 1;
    }
    (better, equal)
}

/// Whether `x` occurs among `nums` (orders equal to one of them).
fn occurs<N: Number>(nums: &Vec<N>, x: N) -> (r: bool)
    ensures
        r == exists|i: int| 0 <= i < nums@.len() && spec_number_order(#[trigger] nums@[i], x) == Order::Equal,
{
    let mut i: usize = 0;
    while i < nums.len()
        invariant
            i <= nums@.len(),
            forall|j: int| 0 <= j < i ==> spec_number_order(#[trigger] nums@[j], x) != Order::Equal,
        decreases nums@.len() - i,
    {
        if number_order(nums[i], x) == Order::Equal {
            return true;
        }
        i = i + 1;
    }
    false
}

/// What `RANK.AVG` gives for `x` among the numbers `s`: `#N/A` when none equals it, else one more
/// than the count ranking better plus half the count of the other equal ones.
pub open spec fn spec_rank_avg<N: Number>(s: Seq<N>, x: N, ascending: bool) -> Value<N> {
    if !(exists|i: int| 0 <= i < s.len() && spec_number_order(#[trigger] s[i], x) == Order::Equal) {
        Value::Error(ErrKind::Na)
    } else {
        let one = N::spec_from_int(1);
        let spread = N::spec_from_int(clamp_count(equal_count(s, x, s.len() as int) as int)).spec_minus(one).spec_over(N::spec_from_int(2));
        Value::Number(N::spec_from_int(clamp_count(better_count(s, x, ascending, s.len() as int) as int)).spec_plus(one).spec_plus(spread))
    }
}

/// `RANK.AVG(number, ref, [order])` — the rank of `number` among the numbers of `ref` (descending
/// unless `order` is non-zero), ties sharing the average of the ranks they span. A `number` absent
/// from `ref` is `#N/A`; an error propagates.
pub fn rank_avg_fn<N: Number, R: Resolver<N>>(ctx: &mut EvalCtx<R>, args: &[Expr<N>]) -> (r: Value<N>)
    requires
        2 <= args.len() <= 3,
    ensures
        restored(*old(ctx), *final(ctx)),
        r is Number || r is Error,
        room(*old(ctx)) ==> (lit_num(args[0]) matches Some(x) ==> match args[1] {
            Expr::Lit(Value::Array(sh, cells)) => cells@.len() == sh.rows * sh.cols ==> (lit_arg(args@, 2, N::spec_from_int(0)) matches Some(o)
                ==> match numbers_in_order(cells@) {
                Err(k) => r == Value::<N>::Error(k),
                Ok(s) => r == spec_rank_avg(s, x, args@.len() == 3 && !spec_is_zero(o)),
            }),
            _ => true,
        }),
    decreases args_size(args@), 7nat,
{
    proof {
        lemma_arg_size(args@, 0);
        lemma_arg_size(args@, 1);
    }
    let number = match coerce_num(&scalarize(ctx.eval(&args[0]))) {
        Ok(n) => n,
        Err(k) => {
            return Value::Error(k);
        },
    };
    let nums = match block(ctx, &args[1]) {
        Ok((_, _, cells)) => {
            proof {
                match args@[1] {
                    Expr::Lit(Value::Array(sh, cs)) => {
                        if room(*old(ctx)) && cs@.len() == sh.rows * sh.cols {
                            lemma_same_cells_numbers(cells@, cs@);
                        }
                    },
                    _ => {},
                }
            }
            match ordered_numbers_of(&cells) {
                Ok(v) => v,
                Err(k) => {
                    return Value::Error(k);
                },
            }
        },
        Err(k) => {
            return Value::Error(k);
        },
    };
    let ascending = if args.len() == 3 {
        proof {
            lemma_arg_size(args@, 2);
        }
        match coerce_num(&scalarize(ctx.eval(&args[2]))) {
            Ok(o) => !is_zero(o),
            Err(k) => {
                return Value::Error(k);
            },
        }
    } else {
        false
    };
    if !occurs(&nums, number) {
        return Value::Error(ErrKind::Na);
    }
    let (better, equal) = better_and_equal(&nums, number, ascending);
    let one = N::from_int(1);
    let spread = len_number::<N>(equal).minus(one).over(N::from_int(2));
    Value::Number(len_number::<N>(better).plus(one).plus(spread))
}

/// `PERCENTILE.EXC(array, k)` — the exclusive percentile (see [`percentile_exclusive`]).
pub fn percentile_exc_fn<N: Number, R: Resolver<N>>(ctx: &mut EvalCtx<R>, args: &[Expr<N>]) -> (r: Value<N>)
    requires
        args.len() == 2,
    ensures
        restored(*old(ctx), *final(ctx)),
        r is Number || r is Error,
        room(*old(ctx)) ==> (lit_num(args[0]) matches Some(x) ==> (lit_num(args[1]) matches Some(k) ==> r == spec_percentile_exclusive(seq![x], k))),
    decreases args_size(args@), 7nat,
{
    proof {
        lemma_arg_size(args@, 1);
    }
    let nums = match collect_one(ctx, args, 0) {
        Ok(n) => n,
        Err(k) => {
            return Value::Error(k);
        },
    };
    let k = match coerce_num(&scalarize(ctx.eval(&args[1]))) {
        Ok(n) => n,
        Err(e) => {
            return Value::Error(e);
        },
    };
    percentile_exclusive(nums, k)
}

/// `QUARTILE.EXC(array, quart)` — the exclusive quartile (see [`quartile_exclusive`]).
pub fn quartile_exc_fn<N: Number, R: Resolver<N>>(ctx: &mut EvalCtx<R>, args: &[Expr<N>]) -> (r: Value<N>)
    requires
        args.len() == 2,
    ensures
        restored(*old(ctx), *final(ctx)),
        r is Number || r is Error,
        room(*old(ctx)) ==> (lit_num(args[0]) matches Some(x) ==> (lit_num(args[1]) matches Some(k) ==> r == spec_quartile_exclusive(seq![x], k))),
    decreases args_size(args@), 7nat,
{
    proof {
        lemma_arg_size(args@, 1);
    }
    let nums = match collect_one(ctx, args, 0) {
        Ok(n) => n,
        Err(k) => {
            return Value::Error(k);
        },
    };
    let quart = match coerce_num(&scalarize(ctx.eval(&args[1]))) {
        Ok(n) => n,
        Err(e) => {
            return Value::Error(e);
        },
    };
    quartile_exclusive(nums, quart)
}

/// `v` truncated toward zero to `sig` significant digits (zero and non-finite values unchanged):
/// with `f = 10^(sig − 1 − ⌊log10 |v|⌋)`, `trunc(v·f)/f`.
pub open spec fn spec_trunc_significant<N: Number>(v: N, sig: i64) -> N {
    if spec_is_zero(v) || !v.spec_finite() {
        v
    } else {
        let place = N::spec_from_int(sig).spec_minus(N::spec_from_int(1)).spec_minus(v.spec_magnitude().spec_log10().spec_floor_of());
        let factor = N::spec_from_int(10).spec_power(place);
        v.spec_times(factor).spec_trunc_of().spec_over(factor)
    }
}

/// `v` truncated toward zero to `sig` significant digits (see [`spec_trunc_significant`]).
fn trunc_significant<N: Number>(v: N, sig: i64) -> (r: N)
    ensures
        r == spec_trunc_significant(v, sig),
{
    if is_zero(v) || !v.finite() {
        return v;
    }
    let sig_n = N::from_int(sig);
    let place = sig_n.minus(N::from_int(1)).minus(v.magnitude().log10().floor_of());
    let factor = N::from_int(10).power(place);
    v.times(factor).trunc_of().over(factor)
}

/// The highest position at or above `i` whose number `x` does not order below.
pub open spec fn hit_above<N: Number>(s: Seq<N>, x: N, i: int) -> Option<int>
    decreases s.len() - i,
{
    if i >= s.len() || i < 0 {
        None
    } else {
        match hit_above(s, x, i + 1) {
            Some(j) => Some(j),
            None => if x.spec_order(s[i]) != Some(Order::Less) { Some(i) } else { None },
        }
    }
}

/// The percent rank of `x` within sorted, non-empty data (see [`percent_rank_of`]).
pub open spec fn spec_percent_rank<N: Number>(s: Seq<N>, x: N, sig: i64, inclusive: bool) -> Value<N> {
    let n = s.len() as int;
    let one = N::spec_from_int(1);
    if x.spec_order(s[0]) == Some(Order::Less) || s[n - 1].spec_order(x) == Some(Order::Less) {
        Value::Error(ErrKind::Na)
    } else {
        match hit_above(s, x, 0) {
            None => Value::Error(ErrKind::Na),
            Some(i) => {
                let pos = if spec_number_order(s[i], x) == Order::Equal || i + 1 >= n {
                    N::spec_from_int(clamp_count(i))
                } else {
                    N::spec_from_int(clamp_count(i)).spec_plus(x.spec_minus(s[i]).spec_over(s[i + 1].spec_minus(s[i])))
                };
                let raw = if inclusive {
                    pos.spec_over(N::spec_from_int(clamp_count(n)).spec_minus(one))
                } else {
                    pos.spec_plus(one).spec_over(N::spec_from_int(clamp_count(n)).spec_plus(one))
                };
                spec_finite_or_num(spec_trunc_significant(raw, sig))
            },
        }
    }
}

/// The percent rank of `x` within sorted, non-empty data: its interpolated 0-based position over
/// `n − 1` (inclusive) or `position + 1` over `n + 1` (exclusive), truncated to `sig` significant
/// digits. An `x` outside the data's range is `#N/A`.
pub fn percent_rank_of<N: Number>(s: &Vec<N>, x: N, sig: i64, inclusive: bool) -> (r: Value<N>)
    requires
        s@.len() > 0,
    ensures
        r is Number || r is Error,
        r == spec_percent_rank(s@, x, sig, inclusive),
{
    let n = s.len();
    if less_than(x, s[0]) || less_than(s[n - 1], x) {
        return Value::Error(ErrKind::Na);
    }
    let mut i: usize = n;
    let mut found: Option<usize> = None;
    while i > 0
        invariant
            i <= n,
            n == s@.len(),
            found matches Some(p) ==> p < n,
            found is None <==> hit_above(s@, x, i as int) is None,
            found matches Some(p) ==> hit_above(s@, x, i as int) == Some(p as int),
        decreases i,
    {
        i = i - 1;
        if found.is_none() && !less_than(x, s[i]) {
            found = Some(i);
        }
    }
    let i = match found {
        Some(p) => p,
        None => {
            return Value::Error(ErrKind::Na);
        },
    };
    let pos = if number_order(s[i], x) == Order::Equal || i + 1 >= n {
        len_number::<N>(i)
    } else {
        len_number::<N>(i).plus(x.minus(s[i]).over(s[i + 1].minus(s[i])))
    };
    let one = N::from_int(1);
    let raw = if inclusive {
        pos.over(len_number::<N>(n).minus(one))
    } else {
        pos.plus(one).over(len_number::<N>(n).plus(one))
    };
    finite_or_num(trunc_significant(raw, sig))
}

/// What the `PERCENTRANK` forms give for a literal number as the data, a literal `x` and a literal
/// significance: `#NUM!` for a significance below 1, else the percent rank.
pub open spec fn percentrank_outcome<N: Number>(args: Seq<Expr<N>>, inclusive: bool, r: Value<N>) -> bool {
    (lit_num(args[0]) matches Some(a) ==> (lit_num(args[1]) matches Some(x)
            ==> (lit_arg(args, 2, N::spec_from_int(3)) matches Some(g) ==> r == if g.spec_trunc_int() < 1 {
            Value::<N>::Error(ErrKind::Num)
        } else {
            spec_percent_rank(spec_sorted(seq![a]), x, g.spec_trunc_int(), inclusive)
        })))
}

/// Shared body of the `PERCENTRANK` forms: the array's numbers, `x`, and the significance
/// (default 3, truncated); no data or a significance below 1 is `#NUM!`.
fn percentrank<N: Number, R: Resolver<N>>(ctx: &mut EvalCtx<R>, args: &[Expr<N>], inclusive: bool) -> (r: Value<N>)
    requires
        2 <= args.len() <= 3,
    ensures
        restored(*old(ctx), *final(ctx)),
        r is Number || r is Error,
        room(*old(ctx)) ==> percentrank_outcome(args@, inclusive, r),
    decreases args_size(args@), 6nat,
{
    proof {
        lemma_arg_size(args@, 1);
    }
    let nums = match collect_one(ctx, args, 0) {
        Ok(n) => n,
        Err(k) => {
            return Value::Error(k);
        },
    };
    let x = match coerce_num(&scalarize(ctx.eval(&args[1]))) {
        Ok(n) => n,
        Err(e) => {
            return Value::Error(e);
        },
    };
    let sig = match opt_num(ctx, args, 2, N::from_int(3)) {
        Ok(n) => n.trunc_int(),
        Err(e) => {
            return Value::Error(e);
        },
    };
    if nums.len() == 0 || sig < 1 {
        return Value::Error(ErrKind::Num);
    }
    let s = sorted(nums);
    percent_rank_of(&s, x, sig, inclusive)
}

/// What [`percentrank_inc_fn`] is stated to give, for a context `ctx` and arguments `args`.
pub open spec fn percentrank_inc_fn_gives<'r, N: Number, R: Resolver<N>>(ctx: EvalCtx<'r, R>, args: Seq<Expr<N>>, r: Value<N>) -> bool {
    &&& room(ctx) ==> percentrank_outcome(args, true, r)
    &&& r is Number || r is Error
}

/// `PERCENTRANK(array, x, [significance])` — the inclusive percent rank.
pub fn percentrank_inc_fn<N: Number, R: Resolver<N>>(ctx: &mut EvalCtx<R>, args: &[Expr<N>]) -> (r: Value<N>)
    requires
        2 <= args.len() <= 3,
    ensures
        room(*old(ctx)) ==> percentrank_outcome(args@, true, r),
        restored(*old(ctx), *final(ctx)),
        r is Number || r is Error,
    decreases args_size(args@), 7nat,
{
    percentrank(ctx, args, true)
}

/// `PERCENTRANK.EXC(array, x, [significance])` — the exclusive percent rank.
pub fn percentrank_exc_fn<N: Number, R: Resolver<N>>(ctx: &mut EvalCtx<R>, args: &[Expr<N>]) -> (r: Value<N>)
    requires
        2 <= args.len() <= 3,
    ensures
        room(*old(ctx)) ==> percentrank_outcome(args@, false, r),
        restored(*old(ctx), *final(ctx)),
        r is Number || r is Error,
    decreases args_size(args@), 7nat,
{
    percentrank(ctx, args, false)
}

/// `MODE.MULT(a, …)` — every value tied for the highest count (at least two), in first-appearance
/// order, as a column; nothing repeating is `#N/A`.
pub fn mode_mult_fn<N: Number, R: Resolver<N>>(ctx: &mut EvalCtx<R>, args: &[Expr<N>]) -> (r: Value<N>)
    ensures
        restored(*old(ctx), *final(ctx)),
        r is Array || r is Error,
    decreases args_size(args@), 7nat,
{
    let nums = match collect_numbers(ctx, args) {
        Ok(n) => n,
        Err(k) => {
            return Value::Error(k);
        },
    };
    let t = tally(&nums);
    let mut top: usize = 0;
    let mut i: usize = 0;
    while i < t.len()
        invariant
            i <= t@.len(),
        decreases t@.len() - i,
    {
        if t[i].1 > top {
            top = t[i].1;
        }
        i = i + 1;
    }
    if top < 2 {
        return Value::Error(ErrKind::Na);
    }
    let mut modes: Vec<Value<N>> = Vec::new();
    let mut j: usize = 0;
    while j < t.len()
        invariant
            j <= t@.len(),
            t@.len() <= nums@.len(),
            modes@.len() <= j,
        decreases t@.len() - j,
    {
        if t[j].1 == top {
            modes.push(Value::Number(t[j].0));
        }
        j = j + 1;
    }
    let rows = modes.len() as u32;
    Value::Array(Shape { rows, cols: 1 }, modes)
}

/// The bin a datum falls in, looking from bin `j` on: the first bin it does not exceed (and
/// orders against), or `bins.len()` past the last.
pub open spec fn bin_slot<N: Number>(bins: Seq<N>, x: N, j: int) -> int
    decreases bins.len() - j,
{
    if j >= bins.len() || j < 0 {
        bins.len() as int
    } else if bins[j].spec_order(x) != Some(Order::Less) && bins[j].spec_order(x) is Some {
        j
    } else {
        bin_slot(bins, x, j + 1)
    }
}

/// How many of the first `i` data fall in bin `k`.
pub open spec fn bin_count<N: Number>(data: Seq<N>, bins: Seq<N>, k: int, i: int) -> nat
    decreases i,
{
    if i <= 0 { 0 } else { bin_count(data, bins, k, i - 1) + if bin_slot(bins, data[i - 1], 0) == k { 1nat } else { 0nat } }
}

/// What `FREQUENCY` gives for its data and bins: a column of `bins + 1` counts.
pub open spec fn frequency_outcome<N: Number>(data: Seq<N>, bins: Seq<N>, r: Value<N>) -> bool {
    r matches Value::Array(s, cells) && s == (Shape { rows: (bins.len() + 1) as u32, cols: 1 }) && cells@.len() == bins.len() + 1
        && forall|k: int| 0 <= k <= bins.len() ==> #[trigger] cells@[k] == Value::<N>::Number(N::spec_from_u128(bin_count(data, bins, k, data.len() as int) as u128))
}

/// The bin counts of `FREQUENCY`: each datum falls in the first bin (taken in the given order) it
/// does not exceed, or past the last bin.
pub fn bin_counts<N: Number>(data: &Vec<N>, bins: &Vec<N>) -> (r: Vec<u64>)
    ensures
        r@.len() == bins@.len() + 1,
        forall|k: int| 0 <= k <= bins@.len() ==> #[trigger] r@[k] == bin_count(data@, bins@, k, data@.len() as int),
{
    let m = bins.len();
    let mut counts: Vec<u64> = Vec::new();
    let mut c: usize = 0;
    while c < m
        invariant
            c <= m,
            m == bins@.len(),
            counts@.len() == c,
            forall|k: int| 0 <= k < c ==> counts@[k] == 0,
        decreases m - c,
    {
        counts.push(0);
        c = c + 1;
    }
    counts.push(0);
    let mut i: usize = 0;
    while i < data.len()
        invariant
            i <= data@.len(),
            m == bins@.len(),
            counts@.len() == m + 1,
            forall|k: int| 0 <= k <= m ==> counts@[k] <= i,
            forall|k: int| 0 <= k <= m ==> #[trigger] counts@[k] == bin_count(data@, bins@, k, i as int),
        decreases data@.len() - i,
    {
        let x = data[i];
        let mut slot: usize = m;
        let mut j: usize = 0;
        while j < m
            invariant
                j <= m,
                m == bins@.len(),
                slot <= m,
                bin_slot(bins@, x, 0) == (if slot < m { slot as int } else { bin_slot(bins@, x, j as int) }),
                slot < m ==> slot < j,
            decreases m - j,
        {
            if slot == m && !less_than(bins[j], x) && bins[j].order(x).is_some() {
                slot = j;
            }
            j = j + 1;
        }
        proof {
            assert(slot as int == bin_slot(bins@, x, 0));
        }
        let old = counts[slot];
        counts.set(slot, old + 1);
        proof {
            assert forall|k: int| 0 <= k <= m implies #[trigger] counts@[k] == bin_count(data@, bins@, k, i + 1) by {
                assert(data@[i as int] == x);
            }
        }
        i = i + 1;
    }
    counts
}

/// What [`frequency_fn`] is stated to give, for a context `ctx` and arguments `args`.
pub open spec fn frequency_fn_gives<'r, N: Number, R: Resolver<N>>(ctx: EvalCtx<'r, R>, args: Seq<Expr<N>>, r: Value<N>) -> bool {
    &&& r is Array || r is Error
    &&& room(ctx) ==> (lit_array_numbers(args[0]) matches Some(dres) ==> (lit_array_numbers(args[1]) matches Some(bres)
        ==> match (dres, bres) {
        (Err(k), _) => r == Value::<N>::Error(k),
        (Ok(_), Err(k)) => r == Value::<N>::Error(k),
        (Ok(d), Ok(b)) => frequency_outcome(d, b, r),
    }))
}

/// `FREQUENCY(data_array, bins_array)` — a column of `bins + 1` counts (see [`bin_counts`]);
/// non-numbers are ignored and an error propagates.
pub fn frequency_fn<N: Number, R: Resolver<N>>(ctx: &mut EvalCtx<R>, args: &[Expr<N>]) -> (r: Value<N>)
    requires
        args.len() == 2,
    ensures
        restored(*old(ctx), *final(ctx)),
        r is Array || r is Error,
        room(*old(ctx)) ==> (lit_array_numbers(args[0]) matches Some(dres) ==> (lit_array_numbers(args[1]) matches Some(bres)
            ==> match (dres, bres) {
            (Err(k), _) => r == Value::<N>::Error(k),
            (Ok(_), Err(k)) => r == Value::<N>::Error(k),
            (Ok(d), Ok(b)) => frequency_outcome(d, b, r),
        })),
    decreases args_size(args@), 7nat,
{
    let data = match collect_one(ctx, args, 0) {
        Ok(n) => n,
        Err(k) => {
            return Value::Error(k);
        },
    };
    let bins = match collect_one(ctx, args, 1) {
        Ok(n) => n,
        Err(k) => {
            return Value::Error(k);
        },
    };
    let counts = bin_counts(&data, &bins);
    let mut cells: Vec<Value<N>> = Vec::new();
    let mut i: usize = 0;
    while i < counts.len()
        invariant
            i <= counts@.len(),
            cells@.len() == i,
            forall|k: int| 0 <= k < i ==> #[trigger] cells@[k] == Value::<N>::Number(N::spec_from_u128(counts@[k] as u128)),
        decreases counts@.len() - i,
    {
        cells.push(Value::Number(N::from_u128(counts[i] as u128)));
        i = i + 1;
    }
    let rows = cells.len() as u32;
    Value::Array(Shape { rows, cols: 1 }, cells)
}

} // verus!
