//! Dispersion, mode and order statistics: `STDEV`, `STDEVP`, `VAR`, `VARP`, `MODE`, `LARGE`,
//! `SMALL`, `PERCENTILE`, `QUARTILE`, and the exclusive percentile the aggregator needs.

use vstd::prelude::*;
use crate::eval::{coerce_num, lemma_restored_same, less_than, number_order, restored, scalarize, spec_number_order, EvalCtx};
use crate::expr::{args_size, lemma_arg_size, Expr, Resolver};
use crate::func::aggregation::{clamp_count, len_number, spec_sum, sum_of};
use crate::func::helpers::{arg_value, collected, all_lit_nums, collect_numbers, collect_numbers_in, finite_or_num, lit_array_numbers, lit_num, lit_nums, num_read, nums_result, room, spec_finite_or_num};
use crate::func::stats::{sorted, spec_sorted};
use crate::value::{ErrKind, Number, Order, Value};

verus! {

/// The numeric data of argument `i` alone (see [`collect_numbers`]).
pub fn collect_one<N: Number, R: Resolver<N>>(ctx: &mut EvalCtx<R>, args: &[Expr<N>], i: usize) -> (r: Result<Vec<N>, ErrKind>)
    requires
        i < args.len(),
    ensures
        restored(*old(ctx), *final(ctx)),
        room(*old(ctx)) ==> (lit_num(args@[i as int]) matches Some(x) ==> (r matches Ok(v) && v@ == seq![x])),
        room(*old(ctx)) ==> (lit_array_numbers(args@[i as int]) matches Some(res) ==> match res {
            Ok(q) => r matches Ok(v) && v@ == q,
            Err(k) => r == Err::<Vec<N>, ErrKind>(k),
        }),
        collected(*old(ctx), args@, i as int, i + 1, nums_result(r)),
    decreases args_size(args@), 3nat,
{
    let r = collect_numbers_in(ctx, args, i, i + 1);
    proof {
        if room(*old(ctx)) && lit_num(args@[i as int]) is Some {
            assert(all_lit_nums(args@, i as int, i + 1));
            assert(lit_nums(args@, i as int, i + 1) =~= seq![lit_num(args@[i as int])->0]);
        }
    }
    r
}

/// Whether entry `b` of a tally is the mode [`pick_mode`] picks.
pub open spec fn is_mode_pick<N>(t: Seq<(N, usize)>, b: int) -> bool {
    &&& 0 <= b < t.len()
    &&& t[b].1 >= 2
    &&& forall|j: int| 0 <= j < t.len() ==> (#[trigger] t[j]).1 <= t[b].1
    &&& forall|j: int| 0 <= j < b ==> (#[trigger] t[j]).1 < t[b].1
}

/// At most one entry is the picked mode.
proof fn lemma_mode_pick_unique<N>(t: Seq<(N, usize)>, a: int, b: int)
    requires
        is_mode_pick(t, a),
        is_mode_pick(t, b),
    ensures
        a == b,
{
    if a < b {
        assert(t[a].1 < t[b].1);
        assert(t[b].1 <= t[a].1);
    } else if b < a {
        assert(t[b].1 < t[a].1);
        assert(t[a].1 <= t[b].1);
    }
}

/// What `MODE` gives for its numbers: `#N/A` when no value repeats, else the value of the tally
/// entry with the highest count, the earliest on a tie (see [`spec_tally`]).
pub open spec fn spec_mode<N: Number>(nums: Seq<N>) -> Value<N> {
    let t = spec_tally(nums);
    if exists|b: int| is_mode_pick(t, b) {
        spec_finite_or_num(t[choose|b: int| is_mode_pick(t, b)].0)
    } else {
        Value::Error(ErrKind::Na)
    }
}

/// The divisor a variance divides by: `n − 1` for a sample, `n` for a population; the variance is
/// undefined when it is not positive.
pub open spec fn variance_divisor(n: int, sample: bool) -> int {
    if sample { n - 1 } else { n }
}

/// The squared deviation of `x` from `mean`.
pub open spec fn sq_dev<N: Number>(x: N, mean: N) -> N {
    x.spec_minus(mean).spec_times(x.spec_minus(mean))
}

/// The squared deviations of the first `k` numbers from `mean`, summed left to right from the
/// first.
pub open spec fn sq_dev_sum<N: Number>(s: Seq<N>, mean: N, k: int) -> N
    decreases k,
{
    if k <= 1 {
        sq_dev(s[0], mean)
    } else {
        sq_dev_sum(s, mean, k - 1).spec_plus(sq_dev(s[k - 1], mean))
    }
}

/// The mean of a non-empty run of numbers: their sum over their count.
pub open spec fn spec_mean_number<N: Number>(s: Seq<N>) -> N {
    spec_sum(s).spec_over(N::spec_from_int(clamp_count(s.len() as int)))
}

/// The variance of a run of numbers: the sum of squared deviations from the mean over the divisor
/// (see [`variance_divisor`]); `None` when the divisor is not positive.
pub open spec fn spec_variance<N: Number>(s: Seq<N>, sample: bool) -> Option<N> {
    if variance_divisor(s.len() as int, sample) <= 0 {
        None
    } else {
        Some(sq_dev_sum(s, spec_mean_number(s), s.len() as int)
            .spec_over(N::spec_from_int(clamp_count(variance_divisor(s.len() as int, sample)))))
    }
}

/// The variance divides the squared deviations from the mean by `n − 1` for a sample and by `n`
/// for a population (undefined when that is not positive), and the standard deviation is the square
/// root of the variance.
pub proof fn law_variance_divisor<N: Number>(s: Seq<N>, sample: bool)
    requires
        s.len() <= 0x20_0000_0000_0000,
    ensures
        (if sample { s.len() >= 2 } else { s.len() >= 1 }) <==> spec_variance(s, sample) is Some,
        spec_variance(s, sample) matches Some(v) ==> v == sq_dev_sum(s, spec_mean_number(s), s.len() as int)
            .spec_over(N::spec_from_int((if sample { s.len() - 1 } else { s.len() as int }) as i64)),
        spec_variance(s, sample) matches Some(v) ==> spec_dispersion(s, sample, false) == spec_finite_or_num(v)
            && spec_dispersion(s, sample, true) == spec_finite_or_num(v.spec_square_root()),
        spec_variance(s, sample) is None ==> spec_dispersion(s, sample, true) == Value::<N>::Error(ErrKind::Div0),
{
}

/// The variance of `nums` (see [`spec_variance`]).
pub fn variance<N: Number>(nums: &Vec<N>, sample: bool) -> (r: Option<N>)
    ensures
        r == spec_variance(nums@, sample),
        r is None <==> variance_divisor(nums@.len() as int, sample) <= 0,
{
    let n = nums.len();
    if n == 0 || (sample && n == 1) {
        return None;
    }
    let count = len_number::<N>(n);
    let denom = if sample { len_number::<N>(n - 1) } else { count };
    let mean = sum_of(nums).over(count);
    let mut ss = N::from_int(0);
    let mut i: usize = 0;
    while i < n
        invariant
            n == nums@.len(),
            n > 0,
            i <= n,
            mean == spec_mean_number(nums@),
            i > 0 ==> ss == sq_dev_sum(nums@, mean, i as int),
        decreases n - i,
    {
        let d = nums[i].minus(mean);
        ss = if i == 0 { d.times(d) } else { ss.plus(d.times(d)) };
        i = i + 1;
    }
    Some(ss.over(denom))
}

/// The dispersion four over a run of numbers: the sample or population variance, or its square
/// root; too few numbers is `#DIV/0!`.
pub open spec fn spec_dispersion<N: Number>(s: Seq<N>, sample: bool, root: bool) -> Value<N> {
    match spec_variance(s, sample) {
        None => Value::Error(ErrKind::Div0),
        Some(v) => spec_finite_or_num(if root { v.spec_square_root() } else { v }),
    }
}

/// The dispersion four over a run of numbers (see [`spec_dispersion`]).
pub fn dispersion_of<N: Number>(nums: &Vec<N>, sample: bool, root: bool) -> (r: Value<N>)
    ensures
        r == spec_dispersion(nums@, sample, root),
{
    match variance(nums, sample) {
        None => Value::Error(ErrKind::Div0),
        Some(v) => finite_or_num(if root { v.square_root() } else { v }),
    }
}

/// The dispersion four over all arguments (see [`dispersion_of`]); an argument error propagates.
fn dispersion<N: Number, R: Resolver<N>>(ctx: &mut EvalCtx<R>, args: &[Expr<N>], sample: bool, root: bool) -> (r: Value<N>)
    ensures
        restored(*old(ctx), *final(ctx)),
        r is Number || r is Error,
        room(*old(ctx)) && all_lit_nums(args@, 0, args@.len() as int)
            ==> r == spec_dispersion(lit_nums(args@, 0, args@.len() as int), sample, root),
        exists|res: Result<Seq<N>, ErrKind>| #[trigger] collected(*old(ctx), args@, 0, args@.len() as int, res) && r == match res {
            Err(k) => Value::<N>::Error(k),
            Ok(s) => spec_dispersion(s, sample, root),
        },
    decreases args_size(args@), 6nat,
{
    let nums = match collect_numbers(ctx, args) {
        Ok(n) => n,
        Err(k) => {
            return Value::Error(k);
        },
    };
    dispersion_of(&nums, sample, root)
}

/// What [`stdev_fn`] is stated to give, for a context `ctx` and arguments `args`.
pub open spec fn stdev_fn_gives<'r, N: Number, R: Resolver<N>>(ctx: EvalCtx<'r, R>, args: Seq<Expr<N>>, r: Value<N>) -> bool {
    &&& r is Number || r is Error
    &&& room(ctx) && all_lit_nums(args, 0, args.len() as int)
        ==> r == spec_dispersion(lit_nums(args, 0, args.len() as int), true, true)
}

/// What [`stdev_fn`] is stated to give for the values its arguments evaluate to in `ctx`.
pub open spec fn stdev_fn_reads<'r, N: Number, R: Resolver<N>>(ctx: EvalCtx<'r, R>, args: Seq<Expr<N>>, r: Value<N>) -> bool {
    &&& exists|res: Result<Seq<N>, ErrKind>| #[trigger] collected(ctx, args, 0, args.len() as int, res) && r == match res {
        Err(k) => Value::<N>::Error(k),
        Ok(s) => spec_dispersion(s, true, true),
    }
}

/// `STDEV(a, b, …)` — the sample standard deviation; fewer than two numbers is `#DIV/0!`.
pub fn stdev_fn<N: Number, R: Resolver<N>>(ctx: &mut EvalCtx<R>, args: &[Expr<N>]) -> (r: Value<N>)
    ensures
        restored(*old(ctx), *final(ctx)),
        r is Number || r is Error,
        room(*old(ctx)) && all_lit_nums(args@, 0, args@.len() as int)
            ==> r == spec_dispersion(lit_nums(args@, 0, args@.len() as int), true, true),
        exists|res: Result<Seq<N>, ErrKind>| #[trigger] collected(*old(ctx), args@, 0, args@.len() as int, res) && r == match res {
            Err(k) => Value::<N>::Error(k),
            Ok(s) => spec_dispersion(s, true, true),
        },
    decreases args_size(args@), 7nat,
{
    dispersion(ctx, args, true, true)
}

/// What [`stdevp_fn`] is stated to give, for a context `ctx` and arguments `args`.
pub open spec fn stdevp_fn_gives<'r, N: Number, R: Resolver<N>>(ctx: EvalCtx<'r, R>, args: Seq<Expr<N>>, r: Value<N>) -> bool {
    &&& r is Number || r is Error
    &&& room(ctx) && all_lit_nums(args, 0, args.len() as int)
        ==> r == spec_dispersion(lit_nums(args, 0, args.len() as int), false, true)
}

/// What [`stdevp_fn`] is stated to give for the values its arguments evaluate to in `ctx`.
pub open spec fn stdevp_fn_reads<'r, N: Number, R: Resolver<N>>(ctx: EvalCtx<'r, R>, args: Seq<Expr<N>>, r: Value<N>) -> bool {
    &&& exists|res: Result<Seq<N>, ErrKind>| #[trigger] collected(ctx, args, 0, args.len() as int, res) && r == match res {
        Err(k) => Value::<N>::Error(k),
        Ok(s) => spec_dispersion(s, false, true),
    }
}

/// `STDEVP(a, b, …)` — the population standard deviation; no number is `#DIV/0!`.
pub fn stdevp_fn<N: Number, R: Resolver<N>>(ctx: &mut EvalCtx<R>, args: &[Expr<N>]) -> (r: Value<N>)
    ensures
        restored(*old(ctx), *final(ctx)),
        r is Number || r is Error,
        room(*old(ctx)) && all_lit_nums(args@, 0, args@.len() as int)
            ==> r == spec_dispersion(lit_nums(args@, 0, args@.len() as int), false, true),
        exists|res: Result<Seq<N>, ErrKind>| #[trigger] collected(*old(ctx), args@, 0, args@.len() as int, res) && r == match res {
            Err(k) => Value::<N>::Error(k),
            Ok(s) => spec_dispersion(s, false, true),
        },
    decreases args_size(args@), 7nat,
{
    dispersion(ctx, args, false, true)
}

/// What [`var_fn`] is stated to give, for a context `ctx` and arguments `args`.
pub open spec fn var_fn_gives<'r, N: Number, R: Resolver<N>>(ctx: EvalCtx<'r, R>, args: Seq<Expr<N>>, r: Value<N>) -> bool {
    &&& r is Number || r is Error
    &&& room(ctx) && all_lit_nums(args, 0, args.len() as int)
        ==> r == spec_dispersion(lit_nums(args, 0, args.len() as int), true, false)
}

/// What [`var_fn`] is stated to give for the values its arguments evaluate to in `ctx`.
pub open spec fn var_fn_reads<'r, N: Number, R: Resolver<N>>(ctx: EvalCtx<'r, R>, args: Seq<Expr<N>>, r: Value<N>) -> bool {
    &&& exists|res: Result<Seq<N>, ErrKind>| #[trigger] collected(ctx, args, 0, args.len() as int, res) && r == match res {
        Err(k) => Value::<N>::Error(k),
        Ok(s) => spec_dispersion(s, true, false),
    }
}

/// `VAR(a, b, …)` — the sample variance; fewer than two numbers is `#DIV/0!`.
pub fn var_fn<N: Number, R: Resolver<N>>(ctx: &mut EvalCtx<R>, args: &[Expr<N>]) -> (r: Value<N>)
    ensures
        restored(*old(ctx), *final(ctx)),
        r is Number || r is Error,
        room(*old(ctx)) && all_lit_nums(args@, 0, args@.len() as int)
            ==> r == spec_dispersion(lit_nums(args@, 0, args@.len() as int), true, false),
        exists|res: Result<Seq<N>, ErrKind>| #[trigger] collected(*old(ctx), args@, 0, args@.len() as int, res) && r == match res {
            Err(k) => Value::<N>::Error(k),
            Ok(s) => spec_dispersion(s, true, false),
        },
    decreases args_size(args@), 7nat,
{
    dispersion(ctx, args, true, false)
}

/// What [`varp_fn`] is stated to give, for a context `ctx` and arguments `args`.
pub open spec fn varp_fn_gives<'r, N: Number, R: Resolver<N>>(ctx: EvalCtx<'r, R>, args: Seq<Expr<N>>, r: Value<N>) -> bool {
    &&& r is Number || r is Error
    &&& room(ctx) && all_lit_nums(args, 0, args.len() as int)
        ==> r == spec_dispersion(lit_nums(args, 0, args.len() as int), false, false)
}

/// What [`varp_fn`] is stated to give for the values its arguments evaluate to in `ctx`.
pub open spec fn varp_fn_reads<'r, N: Number, R: Resolver<N>>(ctx: EvalCtx<'r, R>, args: Seq<Expr<N>>, r: Value<N>) -> bool {
    &&& exists|res: Result<Seq<N>, ErrKind>| #[trigger] collected(ctx, args, 0, args.len() as int, res) && r == match res {
        Err(k) => Value::<N>::Error(k),
        Ok(s) => spec_dispersion(s, false, false),
    }
}

/// `VARP(a, b, …)` — the population variance; no number is `#DIV/0!`.
pub fn varp_fn<N: Number, R: Resolver<N>>(ctx: &mut EvalCtx<R>, args: &[Expr<N>]) -> (r: Value<N>)
    ensures
        restored(*old(ctx), *final(ctx)),
        r is Number || r is Error,
        room(*old(ctx)) && all_lit_nums(args@, 0, args@.len() as int)
            ==> r == spec_dispersion(lit_nums(args@, 0, args@.len() as int), false, false),
        exists|res: Result<Seq<N>, ErrKind>| #[trigger] collected(*old(ctx), args@, 0, args@.len() as int, res) && r == match res {
            Err(k) => Value::<N>::Error(k),
            Ok(s) => spec_dispersion(s, false, false),
        },
    decreases args_size(args@), 7nat,
{
    dispersion(ctx, args, false, false)
}

/// The first of the first `j` tally entries whose value orders equal to `x`.
pub open spec fn first_equal<N: Number>(t: Seq<(N, usize)>, x: N, j: int) -> Option<int>
    decreases j,
{
    if j <= 0 {
        None
    } else {
        match first_equal(t, x, j - 1) {
            Some(p) => Some(p),
            None => if spec_number_order(t[j - 1].0, x) == Order::Equal { Some(j - 1) } else { None },
        }
    }
}

/// The tally of a run in first-appearance order: each number joins the first entry it orders
/// equal to (its count one more), or opens a new entry with count one.
pub open spec fn spec_tally<N: Number>(s: Seq<N>) -> Seq<(N, usize)>
    decreases s.len(),
{
    if s.len() == 0 {
        Seq::empty()
    } else {
        let t = spec_tally(s.drop_last());
        let x = s.last();
        match first_equal(t, x, t.len() as int) {
            Some(p) => t.update(p, (t[p].0, (t[p].1 + 1) as usize)),
            None => t.push((x, 1usize)),
        }
    }
}

/// The tally of a run of numbers in first-appearance order: each distinct value once (compared
/// with the first of its kind), with how many of the numbers equal it (see [`spec_tally`]).
pub fn tally<N: Number>(nums: &Vec<N>) -> (r: Vec<(N, usize)>)
    ensures
        r@.len() <= nums@.len(),
        forall|i: int| 0 <= i < r@.len() ==> 1 <= (#[trigger] r@[i]).1 <= nums@.len(),
        r@ == spec_tally(nums@),
{
    let mut seen: Vec<(N, usize)> = Vec::new();
    let mut i: usize = 0;
    while i < nums.len()
        invariant
            i <= nums@.len(),
            seen@.len() <= i,
            forall|j: int| 0 <= j < seen@.len() ==> 1 <= (#[trigger] seen@[j]).1 <= i,
            seen@ == spec_tally(nums@.subrange(0, i as int)),
        decreases nums@.len() - i,
    {
        let x = nums[i];
        let mut at: Option<usize> = None;
        let mut j: usize = 0;
        proof {
            assert(nums@.subrange(0, i + 1).drop_last() =~= nums@.subrange(0, i as int));
        }
        while j < seen.len()
            invariant
                j <= seen@.len(),
                at matches Some(p) ==> p < seen@.len(),
                at is None <==> first_equal(seen@, x, j as int) is None,
                at matches Some(p) ==> first_equal(seen@, x, j as int) == Some(p as int),
            decreases seen@.len() - j,
        {
            if at.is_none() && number_order(seen[j].0, x) == Order::Equal {
                at = Some(j);
            }
            j = j + 1;
        }
        match at {
            Some(p) => {
                let (v, c) = seen[p];
                seen.set(p, (v, c + 1));
            },
            None => seen.push((x, 1)),
        }
        i = i + 1;
    }
    proof {
        assert(nums@.subrange(0, nums@.len() as int) =~= nums@);
    }
    seen
}

/// Pick the mode of a tally: the highest count of at least two, the earliest entry on a tie.
pub fn pick_mode<N: Number>(t: &Vec<(N, usize)>) -> (r: Option<usize>)
    ensures
        r is None <==> forall|i: int| 0 <= i < t@.len() ==> (#[trigger] t@[i]).1 < 2,
        r matches Some(b) ==> b < t@.len() && t@[b as int].1 >= 2
            && (forall|j: int| 0 <= j < t@.len() ==> (#[trigger] t@[j]).1 <= t@[b as int].1)
            && (forall|j: int| 0 <= j < b ==> (#[trigger] t@[j]).1 < t@[b as int].1),
{
    let mut best: Option<usize> = None;
    let mut i: usize = 0;
    while i < t.len()
        invariant
            i <= t@.len(),
            best is None ==> forall|j: int| 0 <= j < i ==> (#[trigger] t@[j]).1 < 2,
            best matches Some(b) ==> b < i && t@[b as int].1 >= 2
                && (forall|j: int| 0 <= j < i ==> (#[trigger] t@[j]).1 <= t@[b as int].1)
                && (forall|j: int| 0 <= j < b ==> (#[trigger] t@[j]).1 < t@[b as int].1),
        decreases t@.len() - i,
    {
        let c = t[i].1;
        let better = match best {
            None => c >= 2,
            Some(b) => c > t[b].1,
        };
        if better {
            best = Some(i);
        }
        i = i + 1;
    }
    best
}

/// What [`mode_fn`] is stated to give, for a context `ctx` and arguments `args`.
pub open spec fn mode_fn_gives<'r, N: Number, R: Resolver<N>>(ctx: EvalCtx<'r, R>, args: Seq<Expr<N>>, r: Value<N>) -> bool {
    &&& r is Number || r is Error
    &&& room(ctx) && all_lit_nums(args, 0, args.len() as int)
        ==> r == spec_mode(lit_nums(args, 0, args.len() as int))
}

/// What [`mode_fn`] is stated to give for the values its arguments evaluate to in `ctx`.
pub open spec fn mode_fn_reads<'r, N: Number, R: Resolver<N>>(ctx: EvalCtx<'r, R>, args: Seq<Expr<N>>, r: Value<N>) -> bool {
    &&& exists|res: Result<Seq<N>, ErrKind>| #[trigger] collected(ctx, args, 0, args.len() as int, res) && r == match res {
        Err(k) => Value::<N>::Error(k),
        Ok(s) => spec_mode(s),
    }
}

/// `MODE(a, b, …)` — the most frequent number (the earliest on a tie; see [`pick_mode`] over
/// [`tally`]); nothing repeating is `#N/A`.
pub fn mode_fn<N: Number, R: Resolver<N>>(ctx: &mut EvalCtx<R>, args: &[Expr<N>]) -> (r: Value<N>)
    ensures
        restored(*old(ctx), *final(ctx)),
        r is Number || r is Error,
        room(*old(ctx)) && all_lit_nums(args@, 0, args@.len() as int)
            ==> r == spec_mode(lit_nums(args@, 0, args@.len() as int)),
        exists|res: Result<Seq<N>, ErrKind>| #[trigger] collected(*old(ctx), args@, 0, args@.len() as int, res) && r == match res {
            Err(k) => Value::<N>::Error(k),
            Ok(s) => spec_mode(s),
        },
    decreases args_size(args@), 7nat,
{
    let nums = match collect_numbers(ctx, args) {
        Ok(n) => n,
        Err(k) => {
            return Value::Error(k);
        },
    };
    let t = tally(&nums);
    match pick_mode(&t) {
        Some(b) => {
            proof {
                assert(is_mode_pick(t@, b as int));
                let c = choose|c: int| is_mode_pick(t@, c);
                lemma_mode_pick_unique(t@, b as int, c);
            }
            finite_or_num(t[b].0)
        },
        None => {
            proof {
                assert forall|b: int| !is_mode_pick(t@, b) by {
                    if 0 <= b < t@.len() {
                        assert(t@[b].1 < 2);
                    }
                }
            }
            Value::Error(ErrKind::Na)
        },
    }
}

/// Whether `a` orders strictly below `b`.
pub open spec fn below<N: Number>(a: N, b: N) -> bool {
    a.spec_order(b) == Some(Order::Less)
}

/// The `k`-th largest (or smallest) of a run, 1-based in its sorted order (see [`spec_sorted`]);
/// `k` outside `1..=n` is `#NUM!`.
pub open spec fn spec_order_stat<N: Number>(nums: Seq<N>, k: N, largest: bool) -> Value<N> {
    let n = nums.len() as int;
    let ku = k.spec_trunc_u64();
    if n == 0 || below(k, N::spec_from_int(1)) || below(N::spec_from_int(clamp_count(n)), k) || ku < 1 || ku > n {
        Value::Error(ErrKind::Num)
    } else {
        spec_finite_or_num(spec_sorted(nums)[if largest { n - ku } else { ku - 1 }])
    }
}

/// The `k`-th largest (or smallest) of `nums` (see [`spec_order_stat`]).
pub fn order_stat_of<N: Number>(nums: Vec<N>, k: N, largest: bool) -> (r: Value<N>)
    ensures
        nums@.len() == 0 ==> r == Value::<N>::Error(ErrKind::Num),
        r is Number || r is Error,
        r == spec_order_stat(nums@, k, largest),
{
    let n = nums.len();
    if n == 0 || less_than(k, N::from_int(1)) || less_than(len_number::<N>(n), k) {
        return Value::Error(ErrKind::Num);
    }
    let ku = k.trunc_u64();
    if ku < 1 || ku > n as u64 {
        return Value::Error(ErrKind::Num);
    }
    let s = sorted(nums);
    let idx = if largest { n - ku as usize } else { ku as usize - 1 };
    finite_or_num(s[idx])
}

/// `LARGE`/`SMALL`: the array's numeric data and the truncated `k` (see [`order_stat_of`]).
/// What `LARGE` (`largest`) / `SMALL` give over their evaluated arguments: the numbers of
/// `args[0]` (its first error propagates), then `k` (`args[1]` coerced, its error propagating)
/// and the order statistic at `k` truncated.
pub open spec fn order_stat_read<'r, N: Number, R: Resolver<N>>(ctx: EvalCtx<'r, R>, args: Seq<Expr<N>>, largest: bool, r: Value<N>) -> bool {
    exists|cr: Result<Seq<N>, ErrKind>| #[trigger] collected(ctx, args, 0, 1, cr) && match cr {
        Err(k) => r == Value::<N>::Error(k),
        Ok(nums) => exists|c: Result<N, ErrKind>| #[trigger] num_read(ctx, args[1], c) && match c {
            Err(e) => r == Value::<N>::Error(e),
            Ok(k) => r == spec_order_stat(nums, k.spec_trunc_of(), largest),
        },
    }
}

fn order_stat<N: Number, R: Resolver<N>>(ctx: &mut EvalCtx<R>, args: &[Expr<N>], largest: bool) -> (r: Value<N>)
    requires
        args.len() == 2,
    ensures
        restored(*old(ctx), *final(ctx)),
        r is Number || r is Error,
        room(*old(ctx)) ==> (lit_num(args[0]) matches Some(x) ==> (lit_num(args[1]) matches Some(y) ==> r == spec_order_stat(seq![x], y.spec_trunc_of(), largest))),
        order_stat_read(*old(ctx), args@, largest, r),
    decreases args_size(args@), 6nat,
{
    proof {
        lemma_arg_size(args@, 1);
    }
    let rc = collect_one(ctx, args, 0);
    proof {
        assert(collected(*old(ctx), args@, 0, 1, nums_result(rc)));
        lemma_restored_same(*old(ctx), *ctx);
    }
    let nums = match rc {
        Ok(n) => n,
        Err(k) => {
            return Value::Error(k);
        },
    };
    let ev = ctx.eval(&args[1]);
    let sv = scalarize(ev);
    let ck = coerce_num(&sv);
    proof {
        assert(arg_value(*old(ctx), args@[1], ev));
        assert(num_read(*old(ctx), args@[1], ck));
    }
    let k = match ck {
        Ok(n) => n.trunc_of(),
        Err(e) => {
            return Value::Error(e);
        },
    };
    order_stat_of(nums, k, largest)
}

/// What [`large_fn`] is stated to give, for a context `ctx` and arguments `args`.
pub open spec fn large_fn_gives<'r, N: Number, R: Resolver<N>>(ctx: EvalCtx<'r, R>, args: Seq<Expr<N>>, r: Value<N>) -> bool {
    &&& r is Number || r is Error
    &&& room(ctx) ==> (lit_num(args[0]) matches Some(x) ==> (lit_num(args[1]) matches Some(y) ==> r == spec_order_stat(seq![x], y.spec_trunc_of(), true)))
}

/// What [`large_fn`] is stated to give for the values its arguments evaluate to in `ctx`.
pub open spec fn large_fn_reads<'r, N: Number, R: Resolver<N>>(ctx: EvalCtx<'r, R>, args: Seq<Expr<N>>, r: Value<N>) -> bool {
    &&& order_stat_read(ctx, args, true, r)
}

/// `LARGE(array, k)` — the `k`-th largest number.
pub fn large_fn<N: Number, R: Resolver<N>>(ctx: &mut EvalCtx<R>, args: &[Expr<N>]) -> (r: Value<N>)
    requires
        args.len() == 2,
    ensures
        restored(*old(ctx), *final(ctx)),
        r is Number || r is Error,
        room(*old(ctx)) ==> (lit_num(args[0]) matches Some(x) ==> (lit_num(args[1]) matches Some(y) ==> r == spec_order_stat(seq![x], y.spec_trunc_of(), true))),
        order_stat_read(*old(ctx), args@, true, r),
    decreases args_size(args@), 7nat,
{
    order_stat(ctx, args, true)
}

/// What [`small_fn`] is stated to give, for a context `ctx` and arguments `args`.
pub open spec fn small_fn_gives<'r, N: Number, R: Resolver<N>>(ctx: EvalCtx<'r, R>, args: Seq<Expr<N>>, r: Value<N>) -> bool {
    &&& r is Number || r is Error
    &&& room(ctx) ==> (lit_num(args[0]) matches Some(x) ==> (lit_num(args[1]) matches Some(y) ==> r == spec_order_stat(seq![x], y.spec_trunc_of(), false)))
}

/// What [`small_fn`] is stated to give for the values its arguments evaluate to in `ctx`.
pub open spec fn small_fn_reads<'r, N: Number, R: Resolver<N>>(ctx: EvalCtx<'r, R>, args: Seq<Expr<N>>, r: Value<N>) -> bool {
    &&& order_stat_read(ctx, args, false, r)
}

/// `SMALL(array, k)` — the `k`-th smallest number.
pub fn small_fn<N: Number, R: Resolver<N>>(ctx: &mut EvalCtx<R>, args: &[Expr<N>]) -> (r: Value<N>)
    requires
        args.len() == 2,
    ensures
        restored(*old(ctx), *final(ctx)),
        r is Number || r is Error,
        room(*old(ctx)) ==> (lit_num(args[0]) matches Some(x) ==> (lit_num(args[1]) matches Some(y) ==> r == spec_order_stat(seq![x], y.spec_trunc_of(), false))),
        order_stat_read(*old(ctx), args@, false, r),
    decreases args_size(args@), 7nat,
{
    order_stat(ctx, args, false)
}

/// Interpolate sorted data at a fractional rank (see [`interpolate`]).
pub open spec fn spec_interpolate<N: Number>(s: Seq<N>, rank: N, one_based: bool) -> Value<N> {
    let n = s.len() as int;
    let low = rank.spec_floor_of();
    let whole = low.spec_trunc_u64() as int;
    if n == 0 || below(rank, N::spec_from_int(0)) || whole > n || (one_based && whole == 0) || (!one_based && whole == n) {
        Value::Error(ErrKind::Num)
    } else {
        let lo = if one_based { whole - 1 } else { whole };
        let frac = rank.spec_minus(low);
        spec_finite_or_num(if lo + 1 < n {
            s[lo].spec_plus(frac.spec_times(s[lo + 1].spec_minus(s[lo])))
        } else {
            s[lo]
        })
    }
}

/// The inclusive percentile of a run at fraction `k` (see [`percentile_inclusive`]).
pub open spec fn spec_percentile_inclusive<N: Number>(nums: Seq<N>, k: N) -> Value<N> {
    let n = nums.len() as int;
    if n == 0 || below(k, N::spec_from_int(0)) || below(N::spec_from_int(1), k) || !k.spec_finite() {
        Value::Error(ErrKind::Num)
    } else {
        spec_interpolate(spec_sorted(nums), k.spec_times(N::spec_from_int(clamp_count(n - 1))), false)
    }
}

/// The exclusive percentile of a run at fraction `k` (see [`percentile_exclusive`]).
pub open spec fn spec_percentile_exclusive<N: Number>(nums: Seq<N>, k: N) -> Value<N> {
    let n = nums.len() as int;
    let rank = k.spec_times(N::spec_from_int(clamp_count(n)).spec_plus(N::spec_from_int(1)));
    if n == 0 || !k.spec_finite() || below(rank, N::spec_from_int(1)) || below(N::spec_from_int(clamp_count(n)), rank) {
        Value::Error(ErrKind::Num)
    } else {
        spec_interpolate(spec_sorted(nums), rank, true)
    }
}

/// The inclusive quartile (see [`quartile_inclusive`]).
pub open spec fn spec_quartile_inclusive<N: Number>(nums: Seq<N>, quart: N) -> Value<N> {
    if below(quart, N::spec_from_int(0)) || below(N::spec_from_int(4), quart) || !quart.spec_finite() {
        Value::Error(ErrKind::Num)
    } else {
        spec_percentile_inclusive(nums, quart.spec_over(N::spec_from_int(4)))
    }
}

/// The exclusive quartile (see [`quartile_exclusive`]).
pub open spec fn spec_quartile_exclusive<N: Number>(nums: Seq<N>, quart: N) -> Value<N> {
    let q = quart.spec_trunc_of();
    if below(q, N::spec_from_int(1)) || below(N::spec_from_int(3), q) || !q.spec_finite() {
        Value::Error(ErrKind::Num)
    } else {
        spec_percentile_exclusive(nums, q.spec_over(N::spec_from_int(4)))
    }
}

/// The quartiles are percentiles at quarter steps: `QUARTILE.INC(data, q)` for a finite `q` within
/// `0…4` is `PERCENTILE.INC(data, q/4)`, and `QUARTILE.EXC(data, q)` for `q` truncating to `1…3`
/// is `PERCENTILE.EXC(data, trunc(q)/4)`; other quarts are `#NUM!`.
pub proof fn law_quartile_is_percentile<N: Number>(nums: Seq<N>, quart: N)
    ensures
        !below(quart, N::spec_from_int(0)) && !below(N::spec_from_int(4), quart) && quart.spec_finite()
            ==> spec_quartile_inclusive(nums, quart) == spec_percentile_inclusive(nums, quart.spec_over(N::spec_from_int(4))),
        below(quart, N::spec_from_int(0)) || below(N::spec_from_int(4), quart) || !quart.spec_finite()
            ==> spec_quartile_inclusive(nums, quart) == Value::<N>::Error(ErrKind::Num),
        !below(quart.spec_trunc_of(), N::spec_from_int(1)) && !below(N::spec_from_int(3), quart.spec_trunc_of()) && quart.spec_trunc_of().spec_finite()
            ==> spec_quartile_exclusive(nums, quart) == spec_percentile_exclusive(nums, quart.spec_trunc_of().spec_over(N::spec_from_int(4))),
        below(quart.spec_trunc_of(), N::spec_from_int(1)) || below(N::spec_from_int(3), quart.spec_trunc_of()) || !quart.spec_trunc_of().spec_finite()
            ==> spec_quartile_exclusive(nums, quart) == Value::<N>::Error(ErrKind::Num),
{
}

/// Interpolate the sorted data at a fractional rank (1-based when `one_based`): the value at the
/// rank's whole part plus its fraction of the step to the next value (none past the last). A rank
/// outside the data is `#NUM!`.
fn interpolate<N: Number>(s: &Vec<N>, rank: N, one_based: bool) -> (r: Value<N>)
    ensures
        r is Number || r is Error,
        r == spec_interpolate(s@, rank, one_based),
{
    let n = s.len();
    let low = rank.floor_of();
    let whole = low.trunc_u64();
    if n == 0 || less_than(rank, N::from_int(0)) || whole > n as u64 || (one_based && whole == 0) || (!one_based && whole == n as u64) {
        return Value::Error(ErrKind::Num);
    }
    let lo = if one_based { whole as usize - 1 } else { whole as usize };
    let frac = rank.minus(low);
    let val = if lo + 1 < n {
        s[lo].plus(frac.times(s[lo + 1].minus(s[lo])))
    } else {
        s[lo]
    };
    finite_or_num(val)
}

/// The inclusive percentile of `nums` at fraction `k`: interpolated at rank `k·(n − 1)` of the
/// sorted data. No data, or `k` outside `[0, 1]`, is `#NUM!`.
pub fn percentile_inclusive<N: Number>(nums: Vec<N>, k: N) -> (r: Value<N>)
    ensures
        nums@.len() == 0 ==> r == Value::<N>::Error(ErrKind::Num),
        r is Number || r is Error,
        r == spec_percentile_inclusive(nums@, k),
{
    let n = nums.len();
    if n == 0 || less_than(k, N::from_int(0)) || less_than(N::from_int(1), k) || !k.finite() {
        return Value::Error(ErrKind::Num);
    }
    let s = sorted(nums);
    let rank = k.times(len_number::<N>(n - 1));
    interpolate(&s, rank, false)
}

/// The exclusive percentile of `nums` at fraction `k`: interpolated at the 1-based rank
/// `k·(n + 1)`, which must lie in `[1, n]`. No data, or a `k` placing the rank outside, is `#NUM!`.
pub fn percentile_exclusive<N: Number>(nums: Vec<N>, k: N) -> (r: Value<N>)
    ensures
        nums@.len() == 0 ==> r == Value::<N>::Error(ErrKind::Num),
        r is Number || r is Error,
        r == spec_percentile_exclusive(nums@, k),
{
    let n = nums.len();
    if n == 0 || !k.finite() {
        return Value::Error(ErrKind::Num);
    }
    let rank = k.times(len_number::<N>(n).plus(N::from_int(1)));
    if less_than(rank, N::from_int(1)) || less_than(len_number::<N>(n), rank) {
        return Value::Error(ErrKind::Num);
    }
    let s = sorted(nums);
    interpolate(&s, rank, true)
}

/// What [`percentile_fn`] is stated to give, for a context `ctx` and arguments `args`.
pub open spec fn percentile_fn_gives<'r, N: Number, R: Resolver<N>>(ctx: EvalCtx<'r, R>, args: Seq<Expr<N>>, r: Value<N>) -> bool {
    &&& r is Number || r is Error
    &&& room(ctx) ==> (lit_num(args[0]) matches Some(x) ==> (lit_num(args[1]) matches Some(y) ==> r == spec_percentile_inclusive(seq![x], y)))
}

/// `PERCENTILE(array, k)` — the inclusive percentile (see [`percentile_inclusive`]).
pub fn percentile_fn<N: Number, R: Resolver<N>>(ctx: &mut EvalCtx<R>, args: &[Expr<N>]) -> (r: Value<N>)
    requires
        args.len() == 2,
    ensures
        restored(*old(ctx), *final(ctx)),
        r is Number || r is Error,
        room(*old(ctx)) ==> (lit_num(args[0]) matches Some(x) ==> (lit_num(args[1]) matches Some(y) ==> r == spec_percentile_inclusive(seq![x], y))),
    decreases args_size(args@), 7nat,
{
    proof {
        lemma_arg_size(args@, 1);
    }
    let nums = match collect_one(ctx, args, 0) {
        Ok(n) => n,
        Err(k) => {
            return Value::Error(k);
        },
    };
    let k = match coerce_num(&scalarize(ctx.eval(&args[1]))) {
        Ok(n) => n,
        Err(e) => {
            return Value::Error(e);
        },
    };
    percentile_inclusive(nums, k)
}

/// What [`quartile_fn`] is stated to give, for a context `ctx` and arguments `args`.
pub open spec fn quartile_fn_gives<'r, N: Number, R: Resolver<N>>(ctx: EvalCtx<'r, R>, args: Seq<Expr<N>>, r: Value<N>) -> bool {
    &&& r is Number || r is Error
    &&& room(ctx) ==> (lit_num(args[0]) matches Some(x) ==> (lit_num(args[1]) matches Some(y) ==> r == spec_quartile_inclusive(seq![x], y.spec_trunc_of())))
}

/// `QUARTILE(array, quart)` — the inclusive quartile: `quart` (truncated) 0…4 picks the 0th, 25th,
/// 50th, 75th or 100th percentile; anything else is `#NUM!`.
pub fn quartile_fn<N: Number, R: Resolver<N>>(ctx: &mut EvalCtx<R>, args: &[Expr<N>]) -> (r: Value<N>)
    requires
        args.len() == 2,
    ensures
        restored(*old(ctx), *final(ctx)),
        r is Number || r is Error,
        room(*old(ctx)) ==> (lit_num(args[0]) matches Some(x) ==> (lit_num(args[1]) matches Some(y) ==> r == spec_quartile_inclusive(seq![x], y.spec_trunc_of()))),
    decreases args_size(args@), 7nat,
{
    proof {
        lemma_arg_size(args@, 1);
    }
    let nums = match collect_one(ctx, args, 0) {
        Ok(n) => n,
        Err(k) => {
            return Value::Error(k);
        },
    };
    let quart = match coerce_num(&scalarize(ctx.eval(&args[1]))) {
        Ok(n) => n.trunc_of(),
        Err(e) => {
            return Value::Error(e);
        },
    };
    quartile_inclusive(nums, quart)
}

/// The inclusive quartile: `quart` (already truncated) 0…4 picks the 0th, 25th, 50th, 75th or
/// 100th percentile (see [`percentile_inclusive`]); anything else is `#NUM!`.
pub fn quartile_inclusive<N: Number>(nums: Vec<N>, quart: N) -> (r: Value<N>)
    ensures
        r is Number || r is Error,
        r == spec_quartile_inclusive(nums@, quart),
{
    if less_than(quart, N::from_int(0)) || less_than(N::from_int(4), quart) || !quart.finite() {
        return Value::Error(ErrKind::Num);
    }
    percentile_inclusive(nums, quart.over(N::from_int(4)))
}

/// The exclusive quartile: `quart` (truncated) 1…3 picks the 25th, 50th or 75th exclusive
/// percentile (see [`percentile_exclusive`]); anything else is `#NUM!`.
pub fn quartile_exclusive<N: Number>(nums: Vec<N>, quart: N) -> (r: Value<N>)
    ensures
        r is Number || r is Error,
        r == spec_quartile_exclusive(nums@, quart),
{
    let q = quart.trunc_of();
    if less_than(q, N::from_int(1)) || less_than(N::from_int(3), q) || !q.finite() {
        return Value::Error(ErrKind::Num);
    }
    percentile_exclusive(nums, q.over(N::from_int(4)))
}

} // verus!
