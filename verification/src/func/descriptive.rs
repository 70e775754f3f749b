//! Descriptive statistics beyond the core: the `A`-suffixed aggregators that count in-range text and
//! booleans (`AVERAGEA`, `MAXA`, `MINA`), the geometric and harmonic means, the mean absolute
//! deviation `AVEDEV`, and the shape moments `SKEW` and `KURT`.

use vstd::prelude::*;
use crate::eval::{less_than, restored, trim_whitespace, EvalCtx};
use crate::expr::{args_size, lemma_arg_size, Expr, Resolver};
use crate::func::aggregation::{clamp_count, fold_plus, len_number};
use crate::func::helpers::{collected, all_lit_nums, collect_numbers, finite_or_num, lit_num, lit_nums, room, spec_finite_or_num};
use crate::value::{ErrKind, Number, Order, Value};

verus! {

/// What one evaluated datum contributes under the `A` rule: inside an array, a number counts, a
/// boolean counts as 1/0, text counts as 0, a blank is skipped and an error propagates; a direct
/// argument counts as `SUM` would take it (a boolean as 1/0, numeric text as its number, other text
/// `#VALUE!`, a blank skipped, an error propagated).
#[verifier::loop_isolation(false)]
fn gather_a<N: Number>(v: Value<N>, nums: &mut Vec<N>) -> (r: Result<(), ErrKind>)
    ensures
        v matches Value::Error(k) ==> r == Err::<(), ErrKind>(k),
        v is Blank ==> r is Ok && final(nums)@ == old(nums)@,
        v matches Value::Number(n) ==> r is Ok && final(nums)@ == old(nums)@.push(n),
        v is Bool ==> r is Ok && final(nums)@.len() == old(nums)@.len() + 1,
{
    match v {
        Value::Array(_, cells) => {
            let mut i: usize = 0;
            while i < cells.len()
                invariant
                    i <= cells@.len(),
                decreases cells@.len() - i,
            {
                match &cells[i] {
                    Value::Error(k) => {
                        return Err(*k);
                    },
                    Value::Number(n) => nums.push(*n),
                    Value::Bool(b) => nums.push(N::from_int(if *b { 1 } else { 0 })),
                    Value::Text(_) => nums.push(N::from_int(0)),
                    _ => {},
                }
                i = i + 1;
            }
            Ok(())
        },
        Value::Error(k) => Err(k),
        Value::Number(n) => {
            nums.push(n);
            Ok(())
        },
        Value::Bool(b) => {
            nums.push(N::from_int(if b { 1 } else { 0 }));
            Ok(())
        },
        Value::Blank => Ok(()),
        Value::Text(t) => {
            let trimmed = trim_whitespace(t.as_str());
            match N::parse_text(trimmed.as_str()) {
                Some(n) => {
                    nums.push(n);
                    Ok(())
                },
                None => Err(ErrKind::Value),
            }
        },
    }
}

/// Gather every argument's data under the `A` rule (see [`gather_a`]).
fn collect_numbers_a<N: Number, R: Resolver<N>>(ctx: &mut EvalCtx<R>, args: &[Expr<N>]) -> (r: Result<Vec<N>, ErrKind>)
    ensures
        restored(*old(ctx), *final(ctx)),
        room(*old(ctx)) && all_lit_nums(args@, 0, args@.len() as int)
            ==> (r matches Ok(v) && v@ == lit_nums(args@, 0, args@.len() as int)),
    decreases args_size(args@), 4nat,
{
    let mut nums: Vec<N> = Vec::new();
    let mut i: usize = 0;
    while i < args.len()
        invariant
            i <= args.len(),
            restored(*old(ctx), *ctx),
            room(*old(ctx)) && all_lit_nums(args@, 0, args@.len() as int)
                ==> nums@ == lit_nums(args@, 0, i as int),
        decreases args.len() - i,
    {
        proof {
            lemma_arg_size(args@, i as int);
        }
        let v = ctx.eval(&args[i]);
        proof {
            if room(*old(ctx)) && all_lit_nums(args@, 0, args@.len() as int) {
                assert(lit_num(args@[i as int]) is Some);
            }
        }
        gather_a(v, &mut nums)?;
        proof {
            if room(*old(ctx)) && all_lit_nums(args@, 0, args@.len() as int) {
                assert(nums@ =~= lit_nums(args@, 0, i + 1));
            }
        }
        i = i + 1;
    }
    Ok(nums)
}

/// The sum of a run of numbers, folded from zero.
fn total_of<N: Number>(nums: &Vec<N>) -> (r: N)
    ensures
        r == fold_plus(N::spec_from_int(0), nums@),
{
    let mut t = N::from_int(0);
    let mut i: usize = 0;
    while i < nums.len()
        invariant
            i <= nums@.len(),
            t == fold_plus(N::spec_from_int(0), nums@.subrange(0, i as int)),
        decreases nums@.len() - i,
    {
        assert(nums@.subrange(0, i + 1).drop_last() =~= nums@.subrange(0, i as int));
        t = t.plus(nums[i]);
        i = i + 1;
    }
    assert(nums@.subrange(0, nums@.len() as int) =~= nums@);
    t
}

/// What [`averagea_fn`] is stated to give, for a context `ctx` and arguments `args`.
pub open spec fn averagea_fn_gives<'r, N: Number, R: Resolver<N>>(ctx: EvalCtx<'r, R>, args: Seq<Expr<N>>, r: Value<N>) -> bool {
    &&& r is Number || r is Error
    &&& room(ctx) && all_lit_nums(args, 0, args.len() as int)
        ==> r == spec_averagea(lit_nums(args, 0, args.len() as int))
}

/// `AVERAGEA(a, …)` — the mean of the `A`-gathered data; none is `#DIV/0!`.
pub fn averagea_fn<N: Number, R: Resolver<N>>(ctx: &mut EvalCtx<R>, args: &[Expr<N>]) -> (r: Value<N>)
    ensures
        restored(*old(ctx), *final(ctx)),
        r is Number || r is Error,
        room(*old(ctx)) && all_lit_nums(args@, 0, args@.len() as int)
            ==> r == spec_averagea(lit_nums(args@, 0, args@.len() as int)),
    decreases args_size(args@), 7nat,
{
    match collect_numbers_a(ctx, args) {
        Err(k) => Value::Error(k),
        Ok(nums) => {
            if nums.len() == 0 {
                Value::Error(ErrKind::Div0)
            } else {
                finite_or_num(total_of(&nums).over(len_number(nums.len())))
            }
        },
    }
}

/// The running pick of `MAXA`/`MINA` over a non-empty run from its first number: a later number
/// replaces the kept one when it orders beyond it or the kept one is unordered with itself.
pub open spec fn pick_a<N: Number>(s: Seq<N>, largest: bool) -> N
    decreases s.len(),
{
    if s.len() <= 1 {
        s[0]
    } else {
        let best = pick_a(s.drop_last(), largest);
        let x = s.last();
        let better = if largest { best.spec_order(x) == Some(Order::Less) } else { x.spec_order(best) == Some(Order::Less) };
        if better || best.spec_order(best) is None { x } else { best }
    }
}

/// `MAXA` / `MINA` pick one of their numbers, and, when every number is ordered (none is
/// unordered), no number orders strictly above (for `MAXA`) or below (for `MINA`) the pick.
pub proof fn law_pick_a_is_extreme<N: Number>(s: Seq<N>, largest: bool)
    requires
        s.len() > 0,
    ensures
        exists|i: int| 0 <= i < s.len() && s[i] == pick_a(s, largest),
        (forall|i: int| 0 <= i < s.len() ==> (#[trigger] s[i]).spec_order(s[i]) is Some) ==> forall|j: int| 0 <= j < s.len()
            ==> #[trigger] s[j].spec_order(pick_a(s, largest)) != Some(if largest { Order::Greater } else { Order::Less }),
    decreases s.len(),
{
    if s.len() <= 1 {
        N::law_order(s[0], s[0], s[0]);
    } else {
        let p = s.drop_last();
        let x = s.last();
        law_pick_a_is_extreme(p, largest);
        let best = pick_a(p, largest);
        let i0 = choose|i: int| 0 <= i < p.len() && p[i] == best;
        assert(s[i0] == best);
        assert(s[s.len() - 1] == x);
        if forall|i: int| 0 <= i < s.len() ==> (#[trigger] s[i]).spec_order(s[i]) is Some {
            assert forall|i: int| 0 <= i < p.len() implies (#[trigger] p[i]).spec_order(p[i]) is Some by {
                assert(p[i] == s[i]);
            }
            assert(best.spec_order(best) is Some);
            assert(x.spec_order(x) is Some);
            let r = pick_a(s, largest);
            assert forall|j: int| 0 <= j < s.len() implies #[trigger] s[j].spec_order(r) != Some(if largest { Order::Greater } else { Order::Less }) by {
                N::law_order(s[j], best, x);
                N::law_order(s[j], x, best);
                N::law_order(x, best, s[j]);
                N::law_order(best, x, s[j]);
                N::law_order(x, x, x);
                N::law_order(best, best, best);
                if j < p.len() {
                    assert(s[j] == p[j]);
                    assert(p[j].spec_order(best) != Some(if largest { Order::Greater } else { Order::Less }));
                }
            }
        }
    }
}

/// What `MAXA` (`largest`) or `MINA` gives for its numbers: `0` for none.
pub open spec fn spec_extreme_a<N: Number>(s: Seq<N>, largest: bool) -> Value<N> {
    if s.len() == 0 { Value::Number(N::spec_from_int(0)) } else { spec_finite_or_num(pick_a(s, largest)) }
}

/// What `AVERAGEA` gives for its numbers: `#DIV/0!` for none, else the sum from zero over the count.
pub open spec fn spec_averagea<N: Number>(s: Seq<N>) -> Value<N> {
    if s.len() == 0 { Value::Error(ErrKind::Div0) } else { spec_finite_or_num(desc_mean(s)) }
}

/// Shared body of `MAXA`/`MINA`: the largest (or smallest) `A`-gathered datum; none gives 0.
fn extreme_a<N: Number, R: Resolver<N>>(ctx: &mut EvalCtx<R>, args: &[Expr<N>], largest: bool) -> (r: Value<N>)
    ensures
        restored(*old(ctx), *final(ctx)),
        r is Number || r is Error,
        room(*old(ctx)) && all_lit_nums(args@, 0, args@.len() as int)
            ==> r == spec_extreme_a(lit_nums(args@, 0, args@.len() as int), largest),
    decreases args_size(args@), 6nat,
{
    match collect_numbers_a(ctx, args) {
        Err(k) => Value::Error(k),
        Ok(nums) => {
            if nums.len() == 0 {
                return Value::Number(N::from_int(0));
            }
            let mut best = nums[0];
            let mut i: usize = 1;
            assert(nums@.subrange(0, 1).len() == 1);
            while i < nums.len()
                invariant
                    1 <= i <= nums@.len(),
                    best == pick_a(nums@.subrange(0, i as int), largest),
                decreases nums@.len() - i,
            {
                assert(nums@.subrange(0, i + 1).drop_last() =~= nums@.subrange(0, i as int));
                let x = nums[i];
                let unordered = best.order(best).is_none();
                let better = if largest { less_than(best, x) } else { less_than(x, best) };
                if better || unordered {
                    best = x;
                }
                i = i + 1;
            }
            assert(nums@.subrange(0, nums@.len() as int) =~= nums@);
            finite_or_num(best)
        },
    }
}

/// What [`maxa_fn`] is stated to give, for a context `ctx` and arguments `args`.
pub open spec fn maxa_fn_gives<'r, N: Number, R: Resolver<N>>(ctx: EvalCtx<'r, R>, args: Seq<Expr<N>>, r: Value<N>) -> bool {
    &&& r is Number || r is Error
    &&& room(ctx) && all_lit_nums(args, 0, args.len() as int)
        ==> r == spec_extreme_a(lit_nums(args, 0, args.len() as int), true)
}

/// `MAXA(a, …)` — the largest `A`-gathered datum (0 for none).
pub fn maxa_fn<N: Number, R: Resolver<N>>(ctx: &mut EvalCtx<R>, args: &[Expr<N>]) -> (r: Value<N>)
    ensures
        restored(*old(ctx), *final(ctx)),
        r is Number || r is Error,
        room(*old(ctx)) && all_lit_nums(args@, 0, args@.len() as int)
            ==> r == spec_extreme_a(lit_nums(args@, 0, args@.len() as int), true),
    decreases args_size(args@), 7nat,
{
    extreme_a(ctx, args, true)
}

/// What [`mina_fn`] is stated to give, for a context `ctx` and arguments `args`.
pub open spec fn mina_fn_gives<'r, N: Number, R: Resolver<N>>(ctx: EvalCtx<'r, R>, args: Seq<Expr<N>>, r: Value<N>) -> bool {
    &&& r is Number || r is Error
    &&& room(ctx) && all_lit_nums(args, 0, args.len() as int)
        ==> r == spec_extreme_a(lit_nums(args, 0, args.len() as int), false)
}

/// `MINA(a, …)` — the smallest `A`-gathered datum (0 for none).
pub fn mina_fn<N: Number, R: Resolver<N>>(ctx: &mut EvalCtx<R>, args: &[Expr<N>]) -> (r: Value<N>)
    ensures
        restored(*old(ctx), *final(ctx)),
        r is Number || r is Error,
        room(*old(ctx)) && all_lit_nums(args@, 0, args@.len() as int)
            ==> r == spec_extreme_a(lit_nums(args@, 0, args@.len() as int), false),
    decreases args_size(args@), 7nat,
{
    extreme_a(ctx, args, false)
}

/// `f` of each of the first `k` numbers, summed left to right from zero.
pub open spec fn sum_map<N: Number>(s: Seq<N>, k: int, f: spec_fn(N) -> N) -> N
    decreases k,
{
    if k <= 0 { N::spec_from_int(0) } else { sum_map(s, k - 1, f).spec_plus(f(s[k - 1])) }
}

/// Whether every number of a run orders above zero.
pub open spec fn all_above_zero<N: Number>(s: Seq<N>) -> bool {
    forall|j: int| 0 <= j < s.len() ==> N::spec_from_int(0).spec_order(#[trigger] s[j]) == Some(Order::Less)
}

/// What `GEOMEAN` gives for its numbers: `exp(Σ ln x / n)`; none, or one not above zero, is `#NUM!`.
pub open spec fn spec_geomean<N: Number>(s: Seq<N>) -> Value<N> {
    if s.len() == 0 || !all_above_zero(s) {
        Value::Error(ErrKind::Num)
    } else {
        spec_finite_or_num(sum_map(s, s.len() as int, |x: N| x.spec_ln())
            .spec_over(N::spec_from_int(clamp_count(s.len() as int))).spec_exp())
    }
}

/// What `HARMEAN` gives for its numbers: `n / Σ(1/x)`; none, or one not above zero, is `#NUM!`.
pub open spec fn spec_harmean<N: Number>(s: Seq<N>) -> Value<N> {
    if s.len() == 0 || !all_above_zero(s) {
        Value::Error(ErrKind::Num)
    } else {
        spec_finite_or_num(N::spec_from_int(clamp_count(s.len() as int))
            .spec_over(sum_map(s, s.len() as int, |x: N| N::spec_from_int(1).spec_over(x))))
    }
}

/// The mean of a non-empty run as the descriptive functions compute it: the sum from zero over the
/// count.
pub open spec fn desc_mean<N: Number>(s: Seq<N>) -> N {
    fold_plus(N::spec_from_int(0), s).spec_over(N::spec_from_int(clamp_count(s.len() as int)))
}

/// What `AVEDEV` gives for its numbers: `Σ|x − mean| / n`; none is `#NUM!`.
pub open spec fn spec_avedev<N: Number>(s: Seq<N>) -> Value<N> {
    if s.len() == 0 {
        Value::Error(ErrKind::Num)
    } else {
        let mean = desc_mean(s);
        spec_finite_or_num(sum_map(s, s.len() as int, |x: N| x.spec_minus(mean).spec_magnitude())
            .spec_over(N::spec_from_int(clamp_count(s.len() as int))))
    }
}

/// The sample standard deviation about `mean`: `sqrt(Σ(x − mean)² / (n − 1))`.
pub open spec fn spec_sample_stdev<N: Number>(s: Seq<N>, mean: N) -> N {
    sum_map(s, s.len() as int, |x: N| x.spec_minus(mean).spec_times(x.spec_minus(mean)))
        .spec_over(N::spec_from_int(clamp_count(s.len() - 1))).spec_square_root()
}

/// The mean and sample standard deviation of at least `min` numbers, `#DIV/0!` when there are fewer
/// or the deviation does not order above zero.
pub open spec fn spec_spread<N: Number>(s: Seq<N>, min: int) -> Result<(N, N), ErrKind> {
    if s.len() < min {
        Err(ErrKind::Div0)
    } else {
        let sd = spec_sample_stdev(s, desc_mean(s));
        if N::spec_from_int(0).spec_order(sd) == Some(Order::Less) { Ok((desc_mean(s), sd)) } else { Err(ErrKind::Div0) }
    }
}

/// What `SKEW` gives for its numbers: `n/((n−1)(n−2)) · Σ((x−mean)/s)³`.
pub open spec fn spec_skew<N: Number>(s: Seq<N>) -> Value<N> {
    match spec_spread(s, 3) {
        Err(k) => Value::Error(k),
        Ok((mean, sd)) => {
            let nf = N::spec_from_int(clamp_count(s.len() as int));
            let one = N::spec_from_int(1);
            let two = N::spec_from_int(2);
            spec_finite_or_num(nf.spec_over(nf.spec_minus(one).spec_times(nf.spec_minus(two)))
                .spec_times(moment_sum(s, mean, sd, 3, s.len() as int)))
        },
    }
}

/// `SKEW`'s coefficient has the count as its numerator: for `n` numbers (at least 3) with a
/// positive sample deviation `s` about their mean, the skewness is `n` over the integer
/// `(n−1)(n−2)`, times `Σ((x−mean)/s)³`; with fewer numbers or no spread it is `#DIV/0!`.
pub proof fn law_skew_coefficient<N: Number>(s: Seq<N>)
    requires
        s.len() <= 0x400_0000,
    ensures
        spec_spread(s, 3) is Err ==> spec_skew(s) == Value::<N>::Error(ErrKind::Div0),
        spec_spread(s, 3) matches Ok((mean, sd)) ==> s.len() >= 3 && spec_skew(s) == spec_finite_or_num(
            N::spec_from_int(s.len() as i64).spec_over(N::spec_from_int(((s.len() - 1) * (s.len() - 2)) as i64))
                .spec_times(moment_sum(s, mean, sd, 3, s.len() as int))),
{
    let n = s.len() as int;
    if spec_spread(s, 3) is Ok {
        assert(n >= 3);
        assert(clamp_count(n) == n as i64);
        N::law_exact_integers(n as i64, 1);
        N::law_exact_integers(n as i64, 2);
        assert((n - 1) * (n - 2) <= 0x20_0000_0000_0000) by (nonlinear_arith)
            requires 3 <= n <= 0x400_0000;
        assert((n - 1) * (n - 2) > 0) by (nonlinear_arith)
            requires 3 <= n;
        N::law_exact_integers((n - 1) as i64, (n - 2) as i64);
    }
}

/// What `KURT` gives for its numbers:
/// `n(n+1)/((n−1)(n−2)(n−3)) · Σ((x−mean)/s)⁴ − 3(n−1)²/((n−2)(n−3))`.
pub open spec fn spec_kurt<N: Number>(s: Seq<N>) -> Value<N> {
    match spec_spread(s, 4) {
        Err(k) => Value::Error(k),
        Ok((mean, sd)) => {
            let nf = N::spec_from_int(clamp_count(s.len() as int));
            let one = N::spec_from_int(1);
            let two = N::spec_from_int(2);
            let three = N::spec_from_int(3);
            let lead = nf.spec_times(nf.spec_plus(one)).spec_over(nf.spec_minus(one).spec_times(nf.spec_minus(two)).spec_times(nf.spec_minus(three)));
            let corr = three.spec_times(nf.spec_minus(one)).spec_times(nf.spec_minus(one)).spec_over(nf.spec_minus(two).spec_times(nf.spec_minus(three)));
            spec_finite_or_num(lead.spec_times(moment_sum(s, mean, sd, 4, s.len() as int)).spec_minus(corr))
        },
    }
}

/// `KURT`'s coefficients are integer ratios of the count: for `n` numbers (at least 4) with a
/// positive sample deviation, the kurtosis is `n(n+1)` over `(n−1)(n−2)(n−3)` times
/// `Σ((x−mean)/s)⁴`, less `3(n−1)²` over `(n−2)(n−3)`; fewer numbers or no spread is `#DIV/0!`.
pub proof fn law_kurt_coefficients<N: Number>(s: Seq<N>)
    requires
        s.len() <= 0x1_0000,
    ensures
        spec_spread(s, 4) is Err ==> spec_kurt(s) == Value::<N>::Error(ErrKind::Div0),
        spec_spread(s, 4) matches Ok((mean, sd)) ==> s.len() >= 4 && spec_kurt(s) == ({
            let n = s.len() as int;
            let lead = N::spec_from_int((n * (n + 1)) as i64).spec_over(N::spec_from_int(((n - 1) * (n - 2) * (n - 3)) as i64));
            let corr = N::spec_from_int((3 * (n - 1) * (n - 1)) as i64).spec_over(N::spec_from_int(((n - 2) * (n - 3)) as i64));
            spec_finite_or_num(lead.spec_times(moment_sum(s, mean, sd, 4, n)).spec_minus(corr))
        }),
{
    let n = s.len() as int;
    if spec_spread(s, 4) is Ok {
        assert(n >= 4);
        assert(clamp_count(n) == n as i64);
        N::law_exact_integers(n as i64, 1);
        N::law_exact_integers(n as i64, 2);
        N::law_exact_integers(n as i64, 3);
        assert(0 < n * (n + 1) <= 0x20_0000_0000_0000) by (nonlinear_arith)
            requires 4 <= n <= 0x1_0000;
        N::law_exact_integers(n as i64, (n + 1) as i64);
        assert(0 < (n - 1) * (n - 2) <= 0x20_0000_0000_0000) by (nonlinear_arith)
            requires 4 <= n <= 0x1_0000;
        N::law_exact_integers((n - 1) as i64, (n - 2) as i64);
        assert(0 < (n - 1) * (n - 2) * (n - 3) <= 0x20_0000_0000_0000) by (nonlinear_arith)
            requires 4 <= n <= 0x1_0000;
        N::law_exact_integers(((n - 1) * (n - 2)) as i64, (n - 3) as i64);
        assert(0 < (n - 2) * (n - 3) <= 0x20_0000_0000_0000) by (nonlinear_arith)
            requires 4 <= n <= 0x1_0000;
        N::law_exact_integers((n - 2) as i64, (n - 3) as i64);
        N::law_exact_integers(3, (n - 1) as i64);
        assert(0 < 3 * (n - 1) * (n - 1) <= 0x20_0000_0000_0000) by (nonlinear_arith)
            requires 4 <= n <= 0x1_0000;
        assert(0 < 3 * (n - 1) <= 0x20_0000_0000_0000) by (nonlinear_arith)
            requires 4 <= n <= 0x1_0000;
        N::law_exact_integers((3 * (n - 1)) as i64, (n - 1) as i64);
    }
}

/// Whether every number of a run is above zero.
fn all_positive<N: Number>(nums: &Vec<N>) -> (r: bool)
    ensures
        r == forall|j: int| 0 <= j < nums@.len() ==> N::spec_from_int(0).spec_order(#[trigger] nums@[j]) == Some(Order::Less),
{
    let mut i: usize = 0;
    while i < nums.len()
        invariant
            i <= nums@.len(),
            forall|j: int| 0 <= j < i ==> N::spec_from_int(0).spec_order(#[trigger] nums@[j]) == Some(Order::Less),
        decreases nums@.len() - i,
    {
        if !less_than(N::from_int(0), nums[i]) {
            return false;
        }
        i = i + 1;
    }
    true
}

/// What [`geomean_fn`] is stated to give, for a context `ctx` and arguments `args`.
pub open spec fn geomean_fn_gives<'r, N: Number, R: Resolver<N>>(ctx: EvalCtx<'r, R>, args: Seq<Expr<N>>, r: Value<N>) -> bool {
    &&& r is Number || r is Error
    &&& room(ctx) && all_lit_nums(args, 0, args.len() as int)
        ==> r == spec_geomean(lit_nums(args, 0, args.len() as int))
}

/// What [`geomean_fn`] is stated to give for the values its arguments evaluate to in `ctx`.
pub open spec fn geomean_fn_reads<'r, N: Number, R: Resolver<N>>(ctx: EvalCtx<'r, R>, args: Seq<Expr<N>>, r: Value<N>) -> bool {
    &&& exists|res: Result<Seq<N>, ErrKind>| #[trigger] collected(ctx, args, 0, args.len() as int, res) && r == match res {
        Err(k) => Value::<N>::Error(k),
        Ok(s) => spec_geomean(s),
    }
}

/// `GEOMEAN(a, …)` — the geometric mean, `exp(mean(ln x))`; no number, or one not above zero, is
/// `#NUM!`.
pub fn geomean_fn<N: Number, R: Resolver<N>>(ctx: &mut EvalCtx<R>, args: &[Expr<N>]) -> (r: Value<N>)
    ensures
        restored(*old(ctx), *final(ctx)),
        r is Number || r is Error,
        room(*old(ctx)) && all_lit_nums(args@, 0, args@.len() as int)
            ==> r == spec_geomean(lit_nums(args@, 0, args@.len() as int)),
        exists|res: Result<Seq<N>, ErrKind>| #[trigger] collected(*old(ctx), args@, 0, args@.len() as int, res) && r == match res {
            Err(k) => Value::<N>::Error(k),
            Ok(s) => spec_geomean(s),
        },
    decreases args_size(args@), 7nat,
{
    let nums = match collect_numbers(ctx, args) {
        Ok(n) => n,
        Err(k) => {
            return Value::Error(k);
        },
    };
    if nums.len() == 0 || !all_positive(&nums) {
        return Value::Error(ErrKind::Num);
    }
    let mut s = N::from_int(0);
    let mut i: usize = 0;
    while i < nums.len()
        invariant
            i <= nums@.len(),
            s == sum_map(nums@, i as int, |x: N| x.spec_ln()),
        decreases nums@.len() - i,
    {
        s = s.plus(nums[i].ln());
        i = i + 1;
    }
    finite_or_num(s.over(len_number(nums.len())).exp())
}

/// What [`harmean_fn`] is stated to give, for a context `ctx` and arguments `args`.
pub open spec fn harmean_fn_gives<'r, N: Number, R: Resolver<N>>(ctx: EvalCtx<'r, R>, args: Seq<Expr<N>>, r: Value<N>) -> bool {
    &&& r is Number || r is Error
    &&& room(ctx) && all_lit_nums(args, 0, args.len() as int)
        ==> r == spec_harmean(lit_nums(args, 0, args.len() as int))
}

/// What [`harmean_fn`] is stated to give for the values its arguments evaluate to in `ctx`.
pub open spec fn harmean_fn_reads<'r, N: Number, R: Resolver<N>>(ctx: EvalCtx<'r, R>, args: Seq<Expr<N>>, r: Value<N>) -> bool {
    &&& exists|res: Result<Seq<N>, ErrKind>| #[trigger] collected(ctx, args, 0, args.len() as int, res) && r == match res {
        Err(k) => Value::<N>::Error(k),
        Ok(s) => spec_harmean(s),
    }
}

/// `HARMEAN(a, …)` — the harmonic mean, `n / Σ(1/x)`; no number, or one not above zero, is
/// `#NUM!`.
pub fn harmean_fn<N: Number, R: Resolver<N>>(ctx: &mut EvalCtx<R>, args: &[Expr<N>]) -> (r: Value<N>)
    ensures
        restored(*old(ctx), *final(ctx)),
        r is Number || r is Error,
        room(*old(ctx)) && all_lit_nums(args@, 0, args@.len() as int)
            ==> r == spec_harmean(lit_nums(args@, 0, args@.len() as int)),
        exists|res: Result<Seq<N>, ErrKind>| #[trigger] collected(*old(ctx), args@, 0, args@.len() as int, res) && r == match res {
            Err(k) => Value::<N>::Error(k),
            Ok(s) => spec_harmean(s),
        },
    decreases args_size(args@), 7nat,
{
    let nums = match collect_numbers(ctx, args) {
        Ok(n) => n,
        Err(k) => {
            return Value::Error(k);
        },
    };
    if nums.len() == 0 || !all_positive(&nums) {
        return Value::Error(ErrKind::Num);
    }
    let one = N::from_int(1);
    let mut s = N::from_int(0);
    let mut i: usize = 0;
    while i < nums.len()
        invariant
            i <= nums@.len(),
            one == N::spec_from_int(1),
            s == sum_map(nums@, i as int, |x: N| N::spec_from_int(1).spec_over(x)),
        decreases nums@.len() - i,
    {
        s = s.plus(one.over(nums[i]));
        i = i + 1;
    }
    finite_or_num(len_number::<N>(nums.len()).over(s))
}

/// What [`avedev_fn`] is stated to give, for a context `ctx` and arguments `args`.
pub open spec fn avedev_fn_gives<'r, N: Number, R: Resolver<N>>(ctx: EvalCtx<'r, R>, args: Seq<Expr<N>>, r: Value<N>) -> bool {
    &&& r is Number || r is Error
    &&& room(ctx) && all_lit_nums(args, 0, args.len() as int)
        ==> r == spec_avedev(lit_nums(args, 0, args.len() as int))
}

/// What [`avedev_fn`] is stated to give for the values its arguments evaluate to in `ctx`.
pub open spec fn avedev_fn_reads<'r, N: Number, R: Resolver<N>>(ctx: EvalCtx<'r, R>, args: Seq<Expr<N>>, r: Value<N>) -> bool {
    &&& exists|res: Result<Seq<N>, ErrKind>| #[trigger] collected(ctx, args, 0, args.len() as int, res) && r == match res {
        Err(k) => Value::<N>::Error(k),
        Ok(s) => spec_avedev(s),
    }
}

/// `AVEDEV(a, …)` — the mean absolute deviation from the mean; no number is `#NUM!`.
pub fn avedev_fn<N: Number, R: Resolver<N>>(ctx: &mut EvalCtx<R>, args: &[Expr<N>]) -> (r: Value<N>)
    ensures
        restored(*old(ctx), *final(ctx)),
        r is Number || r is Error,
        room(*old(ctx)) && all_lit_nums(args@, 0, args@.len() as int)
            ==> r == spec_avedev(lit_nums(args@, 0, args@.len() as int)),
        exists|res: Result<Seq<N>, ErrKind>| #[trigger] collected(*old(ctx), args@, 0, args@.len() as int, res) && r == match res {
            Err(k) => Value::<N>::Error(k),
            Ok(s) => spec_avedev(s),
        },
    decreases args_size(args@), 7nat,
{
    let nums = match collect_numbers(ctx, args) {
        Ok(n) => n,
        Err(k) => {
            return Value::Error(k);
        },
    };
    if nums.len() == 0 {
        return Value::Error(ErrKind::Num);
    }
    let nf = len_number::<N>(nums.len());
    let mean = total_of(&nums).over(nf);
    let mut ad = N::from_int(0);
    let mut i: usize = 0;
    while i < nums.len()
        invariant
            i <= nums@.len(),
            ad == sum_map(nums@, i as int, |x: N| x.spec_minus(mean).spec_magnitude()),
        decreases nums@.len() - i,
    {
        ad = ad.plus(nums[i].minus(mean).magnitude());
        i = i + 1;
    }
    finite_or_num(ad.over(nf))
}

/// The sample standard deviation about a given mean (`None` for fewer than two numbers).
fn sample_stdev<N: Number>(nums: &Vec<N>, mean: N) -> (r: Option<N>)
    ensures
        r is None <==> nums@.len() < 2,
        r matches Some(x) ==> x == spec_sample_stdev(nums@, mean),
{
    let n = nums.len();
    if n < 2 {
        return None;
    }
    let mut ss = N::from_int(0);
    let mut i: usize = 0;
    while i < n
        invariant
            n == nums@.len(),
            i <= n,
            ss == sum_map(nums@, i as int, |x: N| x.spec_minus(mean).spec_times(x.spec_minus(mean))),
        decreases n - i,
    {
        let d = nums[i].minus(mean);
        ss = ss.plus(d.times(d));
        i = i + 1;
    }
    Some(ss.over(len_number(n - 1)).square_root())
}

/// The sum of the standardized deviations `((x − mean) / s)` raised to `power` (3 or 4).
fn standardized_moment<N: Number>(nums: &Vec<N>, mean: N, s: N, power: u32) -> (r: N)
    ensures
        r == moment_sum(nums@, mean, s, power, nums@.len() as int),
{
    let mut m = N::from_int(0);
    let mut i: usize = 0;
    while i < nums.len()
        invariant
            i <= nums@.len(),
            m == moment_sum(nums@, mean, s, power, i as int),
        decreases nums@.len() - i,
    {
        let z = nums[i].minus(mean).over(s);
        let z2 = z.times(z);
        let p = if power == 3 { z2.times(z) } else { z2.times(z2) };
        m = m.plus(p);
        i = i + 1;
    }
    m
}

/// `((x − mean)/s)` to the third power (when `power` is 3) or else the fourth, as the moments
/// compute it (`z²·z` or `z²·z²`).
pub open spec fn standardized_power<N: Number>(x: N, mean: N, s: N, power: u32) -> N {
    let z = x.spec_minus(mean).spec_over(s);
    let z2 = z.spec_times(z);
    if power == 3 { z2.spec_times(z) } else { z2.spec_times(z2) }
}

/// The standardized powers of the first `k` numbers, summed left to right from zero.
pub open spec fn moment_sum<N: Number>(nums: Seq<N>, mean: N, s: N, power: u32, k: int) -> N
    decreases k,
{
    if k <= 0 {
        N::spec_from_int(0)
    } else {
        moment_sum(nums, mean, s, power, k - 1).spec_plus(standardized_power(nums[k - 1], mean, s, power))
    }
}

/// The mean and positive sample standard deviation of at least `min` numbers, or `#DIV/0!`.
fn spread<N: Number>(nums: &Vec<N>, min: usize) -> (r: Result<(N, N), ErrKind>)
    requires
        min >= 2,
    ensures
        nums@.len() < min ==> r == Err::<(N, N), ErrKind>(ErrKind::Div0),
        r == spec_spread(nums@, min as int),
{
    if nums.len() < min {
        return Err(ErrKind::Div0);
    }
    let mean = total_of(nums).over(len_number(nums.len()));
    match sample_stdev(nums, mean) {
        Some(s) => {
            if less_than(N::from_int(0), s) {
                Ok((mean, s))
            } else {
                Err(ErrKind::Div0)
            }
        },
        None => Err(ErrKind::Div0),
    }
}

/// What [`skew_fn`] is stated to give, for a context `ctx` and arguments `args`.
pub open spec fn skew_fn_gives<'r, N: Number, R: Resolver<N>>(ctx: EvalCtx<'r, R>, args: Seq<Expr<N>>, r: Value<N>) -> bool {
    &&& r is Number || r is Error
    &&& room(ctx) && all_lit_nums(args, 0, args.len() as int)
        ==> r == spec_skew(lit_nums(args, 0, args.len() as int))
}

/// What [`skew_fn`] is stated to give for the values its arguments evaluate to in `ctx`.
pub open spec fn skew_fn_reads<'r, N: Number, R: Resolver<N>>(ctx: EvalCtx<'r, R>, args: Seq<Expr<N>>, r: Value<N>) -> bool {
    &&& exists|res: Result<Seq<N>, ErrKind>| #[trigger] collected(ctx, args, 0, args.len() as int, res) && r == match res {
        Err(k) => Value::<N>::Error(k),
        Ok(s) => spec_skew(s),
    }
}

/// `SKEW(a, …)` — the sample skewness `n/((n−1)(n−2)) · Σ((x−mean)/s)³`; fewer than three numbers, or
/// no spread, is `#DIV/0!`.
pub fn skew_fn<N: Number, R: Resolver<N>>(ctx: &mut EvalCtx<R>, args: &[Expr<N>]) -> (r: Value<N>)
    ensures
        restored(*old(ctx), *final(ctx)),
        r is Number || r is Error,
        room(*old(ctx)) && all_lit_nums(args@, 0, args@.len() as int)
            ==> r == spec_skew(lit_nums(args@, 0, args@.len() as int)),
        exists|res: Result<Seq<N>, ErrKind>| #[trigger] collected(*old(ctx), args@, 0, args@.len() as int, res) && r == match res {
            Err(k) => Value::<N>::Error(k),
            Ok(s) => spec_skew(s),
        },
    decreases args_size(args@), 7nat,
{
    let nums = match collect_numbers(ctx, args) {
        Ok(n) => n,
        Err(k) => {
            return Value::Error(k);
        },
    };
    let (mean, s) = match spread(&nums, 3) {
        Ok(t) => t,
        Err(k) => {
            return Value::Error(k);
        },
    };
    let m3 = standardized_moment(&nums, mean, s, 3);
    let nf = len_number::<N>(nums.len());
    let one = N::from_int(1);
    let two = N::from_int(2);
    finite_or_num(nf.over(nf.minus(one).times(nf.minus(two))).times(m3))
}

/// What [`kurt_fn`] is stated to give, for a context `ctx` and arguments `args`.
pub open spec fn kurt_fn_gives<'r, N: Number, R: Resolver<N>>(ctx: EvalCtx<'r, R>, args: Seq<Expr<N>>, r: Value<N>) -> bool {
    &&& r is Number || r is Error
    &&& room(ctx) && all_lit_nums(args, 0, args.len() as int)
        ==> r == spec_kurt(lit_nums(args, 0, args.len() as int))
}

/// What [`kurt_fn`] is stated to give for the values its arguments evaluate to in `ctx`.
pub open spec fn kurt_fn_reads<'r, N: Number, R: Resolver<N>>(ctx: EvalCtx<'r, R>, args: Seq<Expr<N>>, r: Value<N>) -> bool {
    &&& exists|res: Result<Seq<N>, ErrKind>| #[trigger] collected(ctx, args, 0, args.len() as int, res) && r == match res {
        Err(k) => Value::<N>::Error(k),
        Ok(s) => spec_kurt(s),
    }
}

/// `KURT(a, …)` — the sample excess kurtosis
/// `n(n+1)/((n−1)(n−2)(n−3)) · Σ((x−mean)/s)⁴ − 3(n−1)²/((n−2)(n−3))`; fewer than four numbers, or no
/// spread, is `#DIV/0!`.
pub fn kurt_fn<N: Number, R: Resolver<N>>(ctx: &mut EvalCtx<R>, args: &[Expr<N>]) -> (r: Value<N>)
    ensures
        restored(*old(ctx), *final(ctx)),
        r is Number || r is Error,
        room(*old(ctx)) && all_lit_nums(args@, 0, args@.len() as int)
            ==> r == spec_kurt(lit_nums(args@, 0, args@.len() as int)),
        exists|res: Result<Seq<N>, ErrKind>| #[trigger] collected(*old(ctx), args@, 0, args@.len() as int, res) && r == match res {
            Err(k) => Value::<N>::Error(k),
            Ok(s) => spec_kurt(s),
        },
    decreases args_size(args@), 7nat,
{
    let nums = match collect_numbers(ctx, args) {
        Ok(n) => n,
        Err(k) => {
            return Value::Error(k);
        },
    };
    let (mean, s) = match spread(&nums, 4) {
        Ok(t) => t,
        Err(k) => {
            return Value::Error(k);
        },
    };
    let m4 = standardized_moment(&nums, mean, s, 4);
    let nf = len_number::<N>(nums.len());
    let one = N::from_int(1);
    let two = N::from_int(2);
    let three = N::from_int(3);
    let lead = nf.times(nf.plus(one)).over(nf.minus(one).times(nf.minus(two)).times(nf.minus(three)));
    let corr = three.times(nf.minus(one)).times(nf.minus(one)).over(nf.minus(two).times(nf.minus(three)));
    finite_or_num(lead.times(m4).minus(corr))
}

} // verus!
