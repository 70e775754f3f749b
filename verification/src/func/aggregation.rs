//! Aggregation: `SUM`, `AVERAGE`, `COUNT`, `COUNTA`, `COUNTBLANK`, `PRODUCT`, `SUMPRODUCT`.
//!
//! The direct-vs-in-range asymmetry is deliberate: a boolean/text datum coerces when passed
//! directly, but is ignored inside a range. Errors propagate for the summing forms but are ignored
//! by the counting forms.

use vstd::prelude::*;
use crate::eval::{lemma_restored_same, restored, trim_whitespace, EvalCtx};
use crate::expr::{args_size, lemma_arg_size, Expr, Resolver};
use crate::func::helpers::{arg_value, collected, all_lit_nums, block, collect_numbers, finite_or_num, flat_cells, lemma_same_flat, lit_nums, room, spec_finite_or_num};
use crate::value::{ErrKind, Number, Shape, Value};

verus! {

/// A count clamped to the largest `i64`.
pub open spec fn clamp_count(n: int) -> i64 {
    if n > i64::MAX { i64::MAX } else { n as i64 }
}

/// A count as a number value (saturating at the largest `i64`).
pub fn count_value<N: Number>(n: u64) -> (r: Value<N>)
    ensures
        r == Value::<N>::Number(N::spec_from_int(clamp_count(n as int))),
        r is Number,
{
    if n > i64::MAX as u64 {
        Value::Number(N::from_int(i64::MAX))
    } else {
        Value::Number(N::from_int(n as i64))
    }
}

/// A length as a number (saturating at the largest `i64`).
pub fn len_number<N: Number>(n: usize) -> (r: N)
    ensures
        r == N::spec_from_int(clamp_count(n as int)),
{
    if n as u64 > i64::MAX as u64 {
        N::from_int(i64::MAX)
    } else {
        N::from_int(n as i64)
    }
}

/// `acc` plus each number of `s` in turn, left to right.
pub open spec fn fold_plus<N: Number>(acc: N, s: Seq<N>) -> N
    decreases s.len(),
{
    if s.len() == 0 {
        acc
    } else {
        fold_plus(acc, s.drop_last()).spec_plus(s.last())
    }
}

/// The sum of a run of numbers, folded left to right from the first (zero for none).
pub open spec fn spec_sum<N: Number>(s: Seq<N>) -> N {
    if s.len() == 0 {
        N::spec_from_int(0)
    } else {
        fold_plus(s[0], s.subrange(1, s.len() as int))
    }
}

/// The sum of the first `k` integers of a run.
pub open spec fn int_sum(xs: Seq<i64>, k: int) -> int
    decreases k,
{
    if k <= 0 { 0 } else { int_sum(xs, k - 1) + xs[k - 1] }
}

/// A run of integers as numbers.
pub open spec fn int_numbers<N: Number>(xs: Seq<i64>) -> Seq<N> {
    Seq::new(xs.len(), |i: int| N::spec_from_int(xs[i]))
}

/// Partial sums of small integers stay small.
proof fn lemma_int_sum_bound(xs: Seq<i64>, k: int)
    requires
        0 <= k <= xs.len(),
        forall|i: int| 0 <= i < xs.len() ==> -0x100_0000_0000 <= #[trigger] xs[i] <= 0x100_0000_0000,
    ensures
        -0x100_0000_0000 * k <= int_sum(xs, k) <= 0x100_0000_0000 * k,
    decreases k,
{
    if k > 0 {
        lemma_int_sum_bound(xs, k - 1);
    }
}

/// The left fold of the integers `xs[1..k]` from `xs[0]` is their exact sum.
proof fn lemma_fold_plus_ints<N: Number>(xs: Seq<i64>, k: int)
    requires
        1 <= k <= xs.len() <= 0x1000,
        forall|i: int| 0 <= i < xs.len() ==> -0x100_0000_0000 <= #[trigger] xs[i] <= 0x100_0000_0000,
    ensures
        fold_plus(N::spec_from_int(xs[0]), int_numbers::<N>(xs).subrange(1, k)) == N::spec_from_int(int_sum(xs, k) as i64),
    decreases k,
{
    let t = int_numbers::<N>(xs).subrange(1, k);
    lemma_int_sum_bound(xs, k);
    lemma_int_sum_bound(xs, k - 1);
    if k == 1 {
        assert(int_sum(xs, 1) == xs[0]);
    } else {
        lemma_fold_plus_ints::<N>(xs, k - 1);
        assert(t.drop_last() =~= int_numbers::<N>(xs).subrange(1, k - 1));
        assert(t.last() == N::spec_from_int(xs[k - 1]));
        N::law_exact_integers(int_sum(xs, k - 1) as i64, xs[k - 1]);
    }
}

/// `SUM` of whole numbers whose magnitudes stay within 2^40 (at most 4096 of them) is their exact
/// integer sum: every addition of the left-to-right fold is exact.
pub proof fn law_sum_of_integers<N: Number>(xs: Seq<i64>)
    requires
        xs.len() <= 0x1000,
        forall|i: int| 0 <= i < xs.len() ==> -0x100_0000_0000 <= #[trigger] xs[i] <= 0x100_0000_0000,
    ensures
        spec_sum(int_numbers::<N>(xs)) == N::spec_from_int(int_sum(xs, xs.len() as int) as i64),
{
    lemma_int_sum_bound(xs, xs.len() as int);
    if xs.len() > 0 {
        lemma_fold_plus_ints::<N>(xs, xs.len() as int);
    }
}

/// The left fold of the first `k` integers of a run from zero is their exact sum.
proof fn lemma_fold_from_zero_ints<N: Number>(xs: Seq<i64>, k: int)
    requires
        0 <= k <= xs.len() <= 0x1000,
        forall|i: int| 0 <= i < xs.len() ==> -0x100_0000_0000 <= #[trigger] xs[i] <= 0x100_0000_0000,
    ensures
        fold_plus(N::spec_from_int(0), int_numbers::<N>(xs).subrange(0, k)) == N::spec_from_int(int_sum(xs, k) as i64),
    decreases k,
{
    let t = int_numbers::<N>(xs).subrange(0, k);
    lemma_int_sum_bound(xs, k);
    if k > 0 {
        lemma_int_sum_bound(xs, k - 1);
        lemma_fold_from_zero_ints::<N>(xs, k - 1);
        assert(t.drop_last() =~= int_numbers::<N>(xs).subrange(0, k - 1));
        assert(t.last() == N::spec_from_int(xs[k - 1]));
        N::law_exact_integers(int_sum(xs, k - 1) as i64, xs[k - 1]);
    } else {
        assert(t =~= Seq::<N>::empty());
    }
}

/// A total folded from zero (as `SUMIF`, `AVERAGEIF` and the database sums take it) of whole
/// numbers whose magnitudes stay within 2^40 (at most 4096 of them) is their exact integer sum,
/// the same as `SUM` gives for them.
pub proof fn law_total_of_integers<N: Number>(xs: Seq<i64>)
    requires
        xs.len() <= 0x1000,
        forall|i: int| 0 <= i < xs.len() ==> -0x100_0000_0000 <= #[trigger] xs[i] <= 0x100_0000_0000,
    ensures
        fold_plus(N::spec_from_int(0), int_numbers::<N>(xs)) == N::spec_from_int(int_sum(xs, xs.len() as int) as i64),
        fold_plus(N::spec_from_int(0), int_numbers::<N>(xs)) == spec_sum(int_numbers::<N>(xs)),
{
    lemma_fold_from_zero_ints::<N>(xs, xs.len() as int);
    assert(int_numbers::<N>(xs).subrange(0, xs.len() as int) =~= int_numbers::<N>(xs));
    law_sum_of_integers::<N>(xs);
}

/// The sum of a run of numbers (see [`spec_sum`]).
pub fn sum_of<N: Number>(nums: &Vec<N>) -> (r: N)
    ensures
        r == spec_sum(nums@),
{
    if nums.len() == 0 {
        return N::from_int(0);
    }
    let mut acc = nums[0];
    let mut i: usize = 1;
    assert(nums@.subrange(1, 1) =~= Seq::<N>::empty());
    while i < nums.len()
        invariant
            1 <= i <= nums.len(),
            acc == fold_plus(nums@[0], nums@.subrange(1, i as int)),
        decreases nums.len() - i,
    {
        assert(nums@.subrange(1, i + 1).drop_last() =~= nums@.subrange(1, i as int));
        acc = acc.plus(nums[i]);
        i = i + 1;
    }
    acc
}

/// The mean of a run of numbers as a value: `#DIV/0!` for none, else their sum over their count
/// (see [`spec_finite_or_num`]).
pub open spec fn spec_mean<N: Number>(s: Seq<N>) -> Value<N> {
    if s.len() == 0 {
        Value::Error(ErrKind::Div0)
    } else {
        spec_finite_or_num(spec_sum(s).spec_over(N::spec_from_int(clamp_count(s.len() as int))))
    }
}

/// The mean of a run of numbers (see [`spec_mean`]).
pub fn mean_of<N: Number>(nums: &Vec<N>) -> (r: Value<N>)
    ensures
        r == spec_mean(nums@),
{
    if nums.len() == 0 {
        Value::Error(ErrKind::Div0)
    } else {
        let n = if nums.len() as u64 > i64::MAX as u64 { i64::MAX } else { nums.len() as i64 };
        finite_or_num(sum_of(nums).over(N::from_int(n)))
    }
}

/// `acc` times each number of `s` in turn, left to right.
pub open spec fn fold_times<N: Number>(acc: N, s: Seq<N>) -> N
    decreases s.len(),
{
    if s.len() == 0 {
        acc
    } else {
        fold_times(acc, s.drop_last()).spec_times(s.last())
    }
}

/// The product of a run of numbers as a value: `0` for none (no numeric datum), else the product
/// folded left to right from the first (see [`spec_finite_or_num`]).
pub open spec fn spec_product<N: Number>(s: Seq<N>) -> Value<N> {
    if s.len() == 0 {
        Value::Number(N::spec_from_int(0))
    } else {
        spec_finite_or_num(fold_times(s[0], s.subrange(1, s.len() as int)))
    }
}

/// The product of the first `k` integers of a run.
pub open spec fn int_product(xs: Seq<i64>, k: int) -> int
    decreases k,
{
    if k <= 0 { 1 } else { int_product(xs, k - 1) * xs[k - 1] }
}

/// A partial product of non-zero integers is non-zero and no larger in magnitude than the next.
proof fn lemma_int_product_grows(xs: Seq<i64>, k: int)
    requires
        1 <= k <= xs.len(),
        forall|i: int| 0 <= i < xs.len() ==> #[trigger] xs[i] != 0,
    ensures
        int_product(xs, k - 1) != 0,
        int_product(xs, k) != 0,
        -int_product(xs, k) <= int_product(xs, k - 1) <= int_product(xs, k)
            || int_product(xs, k) <= int_product(xs, k - 1) <= -int_product(xs, k),
    decreases k,
{
    if k > 1 {
        lemma_int_product_grows(xs, k - 1);
    }
    let p = int_product(xs, k - 1);
    let x = xs[k - 1] as int;
    assert(p * x != 0 && (-(p * x) <= p <= p * x || p * x <= p <= -(p * x))) by (nonlinear_arith)
        requires
            p != 0,
            x != 0,
    ;
}

/// The left fold of the integers `xs[1..k]` by multiplication from `xs[0]` is their exact product
/// while it stays within 2^53.
proof fn lemma_fold_times_ints<N: Number>(xs: Seq<i64>, k: int)
    requires
        1 <= k <= xs.len(),
        forall|i: int| 0 <= i < xs.len() ==> #[trigger] xs[i] != 0,
        forall|i: int| 0 <= i < xs.len() ==> -0x20_0000_0000_0000 <= #[trigger] xs[i] <= 0x20_0000_0000_0000,
        -0x20_0000_0000_0000 <= int_product(xs, k) <= 0x20_0000_0000_0000,
    ensures
        fold_times(N::spec_from_int(xs[0]), int_numbers::<N>(xs).subrange(1, k)) == N::spec_from_int(int_product(xs, k) as i64),
    decreases k,
{
    let t = int_numbers::<N>(xs).subrange(1, k);
    lemma_int_product_grows(xs, k);
    if k == 1 {
        assert(int_product(xs, 1) == int_product(xs, 0) * xs[0]);
        assert(int_product(xs, 1) == xs[0]);
    } else {
        lemma_fold_times_ints::<N>(xs, k - 1);
        assert(t.drop_last() =~= int_numbers::<N>(xs).subrange(1, k - 1));
        assert(t.last() == N::spec_from_int(xs[k - 1]));
        N::law_exact_integers(int_product(xs, k - 1) as i64, xs[k - 1]);
    }
}

/// `PRODUCT` of non-zero whole numbers whose exact product (and so every partial product) stays
/// within 2^53 is that exact integer product; `PRODUCT` of no number is `0`.
pub proof fn law_product_of_integers<N: Number>(xs: Seq<i64>)
    requires
        forall|i: int| 0 <= i < xs.len() ==> #[trigger] xs[i] != 0,
        forall|i: int| 0 <= i < xs.len() ==> -0x20_0000_0000_0000 <= #[trigger] xs[i] <= 0x20_0000_0000_0000,
        -0x20_0000_0000_0000 <= int_product(xs, xs.len() as int) <= 0x20_0000_0000_0000,
    ensures
        xs.len() == 0 ==> spec_product(int_numbers::<N>(xs)) == Value::<N>::Number(N::spec_from_int(0)),
        xs.len() > 0 ==> spec_product(int_numbers::<N>(xs)) == Value::<N>::Number(N::spec_from_int(int_product(xs, xs.len() as int) as i64)),
{
    let n = xs.len() as int;
    if n > 0 {
        lemma_fold_times_ints::<N>(xs, n);
        lemma_int_product_grows(xs, n);
        let p = int_product(xs, n) as i64;
        N::law_exact_integers(p, 0);
        assert(int_numbers::<N>(xs)[0] == N::spec_from_int(xs[0]));
    }
}

/// The product of a run of numbers (see [`spec_product`]).
pub fn product_of<N: Number>(nums: &Vec<N>) -> (r: Value<N>)
    ensures
        r == spec_product(nums@),
{
    if nums.len() == 0 {
        return Value::Number(N::from_int(0));
    }
    let mut acc = nums[0];
    let mut i: usize = 1;
    assert(nums@.subrange(1, 1) =~= Seq::<N>::empty());
    while i < nums.len()
        invariant
            1 <= i <= nums.len(),
            acc == fold_times(nums@[0], nums@.subrange(1, i as int)),
        decreases nums.len() - i,
    {
        assert(nums@.subrange(1, i + 1).drop_last() =~= nums@.subrange(1, i as int));
        acc = acc.times(nums[i]);
        i = i + 1;
    }
    finite_or_num(acc)
}

/// The first error among the first `k` cells of a run.
pub open spec fn error_before<N>(cells: Seq<Value<N>>, k: int) -> Option<ErrKind>
    decreases k,
{
    if k <= 0 {
        None
    } else {
        match error_before(cells, k - 1) {
            Some(e) => Some(e),
            None => if cells[k - 1] is Error { Some(cells[k - 1]->Error_0) } else { None },
        }
    }
}

/// One running product scaled by a cell: a number multiplies it, anything else makes it `0`.
pub open spec fn scaled<N: Number>(p: N, cell: Value<N>) -> N {
    match cell {
        Value::Number(n) => p.spec_times(n),
        _ => N::spec_from_int(0),
    }
}

/// Scale each running product by the cell at its position (over the positions both cover), as
/// `SUMPRODUCT` does per argument. The first error among those cells is returned and the products
/// are then unspecified; otherwise each covered product is [`scaled`] and the rest are kept.
pub fn scale_products<N: Number>(prod: &mut Vec<N>, cells: &Vec<Value<N>>) -> (r: Option<ErrKind>)
    ensures
        ({
            let k = if old(prod)@.len() < cells@.len() { old(prod)@.len() as int } else { cells@.len() as int };
            &&& r == error_before(cells@, k)
            &&& r is None ==> final(prod)@.len() == old(prod)@.len()
                && (forall|j: int| 0 <= j < k ==> #[trigger] final(prod)@[j] == scaled(old(prod)@[j], cells@[j]))
                && (forall|j: int| k <= j < old(prod)@.len() ==> #[trigger] final(prod)@[j] == old(prod)@[j])
        }),
{
    let ghost start = prod@;
    let mut j: usize = 0;
    while j < prod.len() && j < cells.len()
        invariant
            j <= prod@.len(),
            j <= cells@.len(),
            prod@.len() == start.len(),
            start == old(prod)@,
            error_before(cells@, j as int) is None,
            forall|i: int| 0 <= i < j ==> #[trigger] prod@[i] == scaled(start[i], cells@[i]),
            forall|i: int| j <= i < start.len() ==> #[trigger] prod@[i] == start[i],
        decreases prod@.len() - j,
    {
        match &cells[j] {
            Value::Error(k) => {
                proof {
                    let kk = if start.len() < cells@.len() { start.len() as int } else { cells@.len() as int };
                    lemma_error_before_sticks(cells@, j + 1, kk);
                }
                return Some(*k);
            },
            Value::Number(n) => {
                let p = prod[j].times(*n);
                prod.set(j, p);
            },
            _ => {
                prod.set(j, N::from_int(0));
            },
        }
        j = j + 1;
    }
    None
}

/// Once a prefix holds an error, every longer prefix reports the same first error.
proof fn lemma_error_before_sticks<N>(cells: Seq<Value<N>>, i: int, k: int)
    requires
        0 <= i <= k,
        error_before(cells, i) is Some,
    ensures
        error_before(cells, k) == error_before(cells, i),
    decreases k - i,
{
    if i < k {
        lemma_error_before_sticks(cells, i + 1, k);
    }
}

/// What [`sum`] is stated to give, for a context `ctx` and arguments `args`.
pub open spec fn sum_gives<'r, N: Number, R: Resolver<N>>(ctx: EvalCtx<'r, R>, args: Seq<Expr<N>>, r: Value<N>) -> bool {
    &&& r is Number || r is Error
    &&& room(ctx) && all_lit_nums(args, 0, args.len() as int)
        ==> r == spec_finite_or_num(spec_sum(lit_nums(args, 0, args.len() as int)))
}

/// What [`sum`] is stated to give for the values its arguments evaluate to in `ctx`.
pub open spec fn sum_reads<'r, N: Number, R: Resolver<N>>(ctx: EvalCtx<'r, R>, args: Seq<Expr<N>>, r: Value<N>) -> bool {
    &&& exists|res: Result<Seq<N>, ErrKind>| #[trigger] collected(ctx, args, 0, args.len() as int, res) && r == match res {
        Err(k) => Value::<N>::Error(k),
        Ok(s) => spec_finite_or_num(spec_sum(s)),
    }
}

/// `SUM(a, b, …)` — total the numbers; any error propagates.
pub fn sum<N: Number, R: Resolver<N>>(ctx: &mut EvalCtx<R>, args: &[Expr<N>]) -> (r: Value<N>)
    requires
        args.len() >= 1,
    ensures
        restored(*old(ctx), *final(ctx)),
        r is Number || r is Error,
        room(*old(ctx)) && all_lit_nums(args@, 0, args@.len() as int)
            ==> r == spec_finite_or_num(spec_sum(lit_nums(args@, 0, args@.len() as int))),
        exists|res: Result<Seq<N>, ErrKind>| #[trigger] collected(*old(ctx), args@, 0, args@.len() as int, res) && r == match res {
            Err(k) => Value::<N>::Error(k),
            Ok(s) => spec_finite_or_num(spec_sum(s)),
        },
    decreases args_size(args@), 7nat,
{
    match collect_numbers(ctx, args) {
        Err(k) => Value::Error(k),
        Ok(nums) => finite_or_num(sum_of(&nums)),
    }
}

/// What [`average`] is stated to give, for a context `ctx` and arguments `args`.
pub open spec fn average_gives<'r, N: Number, R: Resolver<N>>(ctx: EvalCtx<'r, R>, args: Seq<Expr<N>>, r: Value<N>) -> bool {
    &&& r is Number || r is Error
    &&& room(ctx) && all_lit_nums(args, 0, args.len() as int)
        ==> r == spec_mean(lit_nums(args, 0, args.len() as int))
}

/// What [`average`] is stated to give for the values its arguments evaluate to in `ctx`.
pub open spec fn average_reads<'r, N: Number, R: Resolver<N>>(ctx: EvalCtx<'r, R>, args: Seq<Expr<N>>, r: Value<N>) -> bool {
    &&& exists|res: Result<Seq<N>, ErrKind>| #[trigger] collected(ctx, args, 0, args.len() as int, res) && r == match res {
        Err(k) => Value::<N>::Error(k),
        Ok(s) => spec_mean(s),
    }
}

/// `AVERAGE(a, b, …)` — the mean of the numeric data; no numbers is `#DIV/0!`.
pub fn average<N: Number, R: Resolver<N>>(ctx: &mut EvalCtx<R>, args: &[Expr<N>]) -> (r: Value<N>)
    requires
        args.len() >= 1,
    ensures
        restored(*old(ctx), *final(ctx)),
        r is Number || r is Error,
        room(*old(ctx)) && all_lit_nums(args@, 0, args@.len() as int)
            ==> r == spec_mean(lit_nums(args@, 0, args@.len() as int)),
        exists|res: Result<Seq<N>, ErrKind>| #[trigger] collected(*old(ctx), args@, 0, args@.len() as int, res) && r == match res {
            Err(k) => Value::<N>::Error(k),
            Ok(s) => spec_mean(s),
        },
    decreases args_size(args@), 7nat,
{
    match collect_numbers(ctx, args) {
        Err(k) => Value::Error(k),
        Ok(nums) => mean_of(&nums),
    }
}

/// How many of the first `k` cells are numbers.
pub open spec fn number_cells<N>(cells: Seq<Value<N>>, k: int) -> nat
    decreases k,
{
    if k <= 0 { 0 } else { number_cells(cells, k - 1) + if cells[k - 1] is Number { 1nat } else { 0nat } }
}

/// How many of the first `k` cells are not blank.
pub open spec fn nonblank_cells<N>(cells: Seq<Value<N>>, k: int) -> nat
    decreases k,
{
    if k <= 0 { 0 } else { nonblank_cells(cells, k - 1) + if cells[k - 1] is Blank { 0nat } else { 1nat } }
}

/// Whether `c` is what `COUNT` counts of a datum (see [`count_datum`]): the numbers of an array, 1
/// for a direct number or boolean, 0 for a blank or an error; a direct text counts 1 or 0 (by
/// whether it spells a number).
pub open spec fn count_datum_is<N>(v: Value<N>, c: nat) -> bool {
    match v {
        Value::Array(_, cells) => c == number_cells(cells@, cells@.len() as int),
        Value::Number(_) => c == 1,
        Value::Bool(_) => c == 1,
        Value::Text(_) => c <= 1,
        _ => c == 0,
    }
}

/// What `COUNTA` counts of a datum: the non-blank cells of an array, 0 for a blank, 1 otherwise.
pub open spec fn counta_of<N>(v: Value<N>) -> nat {
    match v {
        Value::Array(_, cells) => nonblank_cells(cells@, cells@.len() as int),
        Value::Blank => 0,
        _ => 1,
    }
}

/// The saturating (at the largest `u64`) running total of the first `k` counts.
pub open spec fn sat_total(cs: Seq<nat>, k: int) -> nat
    decreases k,
{
    if k <= 0 {
        0
    } else {
        let t = sat_total(cs, k - 1) + cs[k - 1];
        if t > u64::MAX { u64::MAX as nat } else { t }
    }
}

/// Extending the counts past the first `k` leaves their running total unchanged.
proof fn lemma_sat_total_prefix(a: Seq<nat>, b: Seq<nat>, k: int)
    requires
        0 <= k <= a.len(),
        k <= b.len(),
        forall|j: int| 0 <= j < k ==> a[j] == b[j],
    ensures
        sat_total(a, k) == sat_total(b, k),
    decreases k,
{
    if k > 0 {
        lemma_sat_total_prefix(a, b, k - 1);
    }
}

/// Whether `r` is what `COUNT` (`all` false) or `COUNTA` (`all` true) gives over the arguments
/// evaluated in `ctx` to `vals`, each datum counting `cs[i]`.
pub open spec fn counted_read<'r, N: Number, R: Resolver<N>>(ctx: EvalCtx<'r, R>, args: Seq<Expr<N>>, all: bool, r: Value<N>) -> bool {
    exists|vals: Seq<Value<N>>, cs: Seq<nat>| #[trigger] counted_by(ctx, args, all, vals, cs)
        && r == Value::<N>::Number(N::spec_from_int(clamp_count(sat_total(cs, args.len() as int) as int)))
}

/// Whether the arguments evaluate in `ctx` to `vals`, each datum counting `cs[i]` (see
/// [`counted_read`]).
pub open spec fn counted_by<'r, N: Number, R: Resolver<N>>(ctx: EvalCtx<'r, R>, args: Seq<Expr<N>>, all: bool, vals: Seq<Value<N>>,
    cs: Seq<nat>) -> bool {
    &&& vals.len() == args.len()
    &&& cs.len() == args.len()
    &&& forall|i: int| 0 <= i < args.len() ==> arg_value(ctx, args[i], #[trigger] vals[i])
        && (if all { cs[i] == counta_of(vals[i]) } else { count_datum_is(vals[i], cs[i]) })
}

/// How many of a datum's values `COUNT` counts: numbers inside an array; a direct number or
/// boolean; a direct text that spells a number. Errors and blanks never count.
pub fn count_datum<N: Number>(v: &Value<N>) -> (r: u64)
    ensures
        v is Number || v is Bool ==> r == 1,
        v is Blank || v is Error ==> r == 0,
        count_datum_is(*v, r as nat),
{
    match v {
        Value::Array(_, cells) => {
            let mut n: u64 = 0;
            let mut i: usize = 0;
            while i < cells.len()
                invariant
                    i <= cells.len(),
                    n == number_cells(cells@, i as int),
                    n <= i,
                decreases cells.len() - i,
            {
                if let Value::Number(_) = &cells[i] {
                    n = n.saturating_add(1);
                }
                i = i + 1;
            }
            n
        },
        Value::Number(_) => 1,
        Value::Bool(_) => 1,
        Value::Text(t) => match N::parse_text(trim_whitespace(t.as_str()).as_str()) {
            Some(_) => 1,
            None => 0,
        },
        Value::Blank => 0,
        Value::Error(_) => 0,
    }
}

/// Whether an argument is a literal that is neither text nor an array.
pub open spec fn plain_lit<N>(e: Expr<N>) -> bool {
    e matches Expr::Lit(v) && !(v is Text) && !(v is Array)
}

/// How many of the first `k` arguments are literals satisfying `f`.
pub open spec fn lit_count<N>(args: Seq<Expr<N>>, k: int, f: spec_fn(Value<N>) -> bool) -> nat
    decreases k,
{
    if k <= 0 {
        0
    } else {
        lit_count(args, k - 1, f) + if (args[k - 1] matches Expr::Lit(v) && f(v)) { 1nat } else { 0nat }
    }
}

/// What [`count`] is stated to give, for a context `ctx` and arguments `args`.
pub open spec fn count_gives<'r, N: Number, R: Resolver<N>>(ctx: EvalCtx<'r, R>, args: Seq<Expr<N>>, r: Value<N>) -> bool {
    &&& r is Number
    &&& room(ctx) && (forall|i: int| 0 <= i < args.len() ==> #[trigger] plain_lit(args[i]))
        ==> r == Value::<N>::Number(N::spec_from_int(clamp_count(
            lit_count(args, args.len() as int, |v: Value<N>| v is Number || v is Bool) as int)))
}

/// What [`count`] is stated to give for the values its arguments evaluate to in `ctx`.
pub open spec fn count_reads<'r, N: Number, R: Resolver<N>>(ctx: EvalCtx<'r, R>, args: Seq<Expr<N>>, r: Value<N>) -> bool {
    &&& counted_read(ctx, args, false, r)
}

/// `COUNT(a, b, …)` — how many data are numbers. Never returns an error.
pub fn count<N: Number, R: Resolver<N>>(ctx: &mut EvalCtx<R>, args: &[Expr<N>]) -> (r: Value<N>)
    requires
        args.len() >= 1,
    ensures
        restored(*old(ctx), *final(ctx)),
        r is Number,
        room(*old(ctx)) && (forall|i: int| 0 <= i < args@.len() ==> #[trigger] plain_lit(args@[i]))
            ==> r == Value::<N>::Number(N::spec_from_int(clamp_count(
                lit_count(args@, args@.len() as int, |v: Value<N>| v is Number || v is Bool) as int))),
        counted_read(*old(ctx), args@, false, r),
    decreases args_size(args@), 7nat,
{
    let mut n: u64 = 0;
    let mut i: usize = 0;
    let ghost mut vals: Seq<Value<N>> = Seq::empty();
    let ghost mut cs: Seq<nat> = Seq::empty();
    while i < args.len()
        invariant
            i <= args.len(),
            restored(*old(ctx), *ctx),
            vals.len() == i,
            cs.len() == i,
            n == sat_total(cs, i as int),
            forall|j: int| 0 <= j < i ==> arg_value(*old(ctx), args@[j], #[trigger] vals[j])
                && (if false { cs[j] == counta_of(vals[j]) } else { count_datum_is(vals[j], cs[j]) }),
            room(*old(ctx)) && (forall|j: int| 0 <= j < args@.len() ==> #[trigger] plain_lit(args@[j]))
                ==> n == lit_count(args@, i as int, |v: Value<N>| v is Number || v is Bool) && n <= i,
        decreases args.len() - i,
    {
        proof {
            lemma_arg_size(args@, i as int);
        }
        proof {
            lemma_restored_same(*old(ctx), *ctx);
        }
        let v = ctx.eval(&args[i]);
        proof {
            if room(*old(ctx)) && (forall|j: int| 0 <= j < args@.len() ==> #[trigger] plain_lit(args@[j])) {
                assert(plain_lit(args@[i as int]));
            }
        }
        let c = count_datum(&v);
        n = n.saturating_add(c);
        proof {
            let vals0 = vals;
            let cs0 = cs;
            vals = vals.push(v);
            cs = cs.push(c as nat);
            assert(arg_value(*old(ctx), args@[i as int], v));
            assert forall|j: int| 0 <= j < i + 1 implies arg_value(*old(ctx), args@[j], #[trigger] vals[j])
                && (if false { cs[j] == counta_of(vals[j]) } else { count_datum_is(vals[j], cs[j]) }) by {
                if j < i {
                    assert(vals[j] == vals0[j]);
                    assert(cs[j] == cs0[j]);
                }
            }
            assert(sat_total(cs, i + 1) == (if sat_total(cs, i as int) + c > u64::MAX { u64::MAX as int } else { sat_total(cs, i as int) + c }));
            assert(sat_total(cs, i as int) == sat_total(cs0, i as int)) by {
                lemma_sat_total_prefix(cs0, cs, i as int);
            }
        }
        i = i + 1;
    }
    proof {
        assert(counted_by(*old(ctx), args@, false, vals, cs));
    }
    count_value(n)
}

/// How many of a datum's values are non-empty: every cell of an array but a `Blank`; a direct
/// value unless it is `Blank` (an error counts).
pub fn counta_datum<N>(v: &Value<N>) -> (r: u64)
    ensures
        v is Blank ==> r == 0,
        !(v is Blank) && !(v is Array) ==> r == 1,
        r == counta_of(*v),
{
    match v {
        Value::Array(_, cells) => {
            let mut n: u64 = 0;
            let mut i: usize = 0;
            while i < cells.len()
                invariant
                    i <= cells.len(),
                    n == nonblank_cells(cells@, i as int),
                    n <= i,
                decreases cells.len() - i,
            {
                match &cells[i] {
                    Value::Blank => {},
                    _ => {
                        n = n.saturating_add(1);
                    },
                }
                i = i + 1;
            }
            n
        },
        Value::Blank => 0,
        _ => 1,
    }
}

/// What [`counta`] is stated to give, for a context `ctx` and arguments `args`.
pub open spec fn counta_gives<'r, N: Number, R: Resolver<N>>(ctx: EvalCtx<'r, R>, args: Seq<Expr<N>>, r: Value<N>) -> bool {
    &&& r is Number
    &&& room(ctx) && (forall|i: int| 0 <= i < args.len() ==> (#[trigger] args[i] matches Expr::Lit(v) && !(v is Array)))
        ==> r == Value::<N>::Number(N::spec_from_int(clamp_count(
            lit_count(args, args.len() as int, |v: Value<N>| !(v is Blank)) as int)))
}

/// What [`counta`] is stated to give for the values its arguments evaluate to in `ctx`.
pub open spec fn counta_reads<'r, N: Number, R: Resolver<N>>(ctx: EvalCtx<'r, R>, args: Seq<Expr<N>>, r: Value<N>) -> bool {
    &&& counted_read(ctx, args, true, r)
}

/// `COUNTA(a, b, …)` — how many data are non-empty. Never propagates an error.
pub fn counta<N: Number, R: Resolver<N>>(ctx: &mut EvalCtx<R>, args: &[Expr<N>]) -> (r: Value<N>)
    requires
        args.len() >= 1,
    ensures
        restored(*old(ctx), *final(ctx)),
        r is Number,
        room(*old(ctx)) && (forall|i: int| 0 <= i < args@.len() ==> (#[trigger] args@[i] matches Expr::Lit(v) && !(v is Array)))
            ==> r == Value::<N>::Number(N::spec_from_int(clamp_count(
                lit_count(args@, args@.len() as int, |v: Value<N>| !(v is Blank)) as int))),
        counted_read(*old(ctx), args@, true, r),
    decreases args_size(args@), 7nat,
{
    let mut n: u64 = 0;
    let mut i: usize = 0;
    let ghost mut vals: Seq<Value<N>> = Seq::empty();
    let ghost mut cs: Seq<nat> = Seq::empty();
    while i < args.len()
        invariant
            i <= args.len(),
            restored(*old(ctx), *ctx),
            vals.len() == i,
            cs.len() == i,
            n == sat_total(cs, i as int),
            forall|j: int| 0 <= j < i ==> arg_value(*old(ctx), args@[j], #[trigger] vals[j])
                && (if true { cs[j] == counta_of(vals[j]) } else { count_datum_is(vals[j], cs[j]) }),
            room(*old(ctx)) && (forall|j: int| 0 <= j < args@.len() ==> (#[trigger] args@[j] matches Expr::Lit(v) && !(v is Array)))
                ==> n == lit_count(args@, i as int, |v: Value<N>| !(v is Blank)) && n <= i,
        decreases args.len() - i,
    {
        proof {
            lemma_arg_size(args@, i as int);
        }
        proof {
            lemma_restored_same(*old(ctx), *ctx);
        }
        let v = ctx.eval(&args[i]);
        proof {
            if room(*old(ctx)) && (forall|j: int| 0 <= j < args@.len() ==> (#[trigger] args@[j] matches Expr::Lit(v) && !(v is Array))) {
                assert(args@[i as int] matches Expr::Lit(v) && !(v is Array));
            }
        }
        let c = counta_datum(&v);
        n = n.saturating_add(c);
        proof {
            let vals0 = vals;
            let cs0 = cs;
            vals = vals.push(v);
            cs = cs.push(c as nat);
            assert(arg_value(*old(ctx), args@[i as int], v));
            assert forall|j: int| 0 <= j < i + 1 implies arg_value(*old(ctx), args@[j], #[trigger] vals[j])
                && (if true { cs[j] == counta_of(vals[j]) } else { count_datum_is(vals[j], cs[j]) }) by {
                if j < i {
                    assert(vals[j] == vals0[j]);
                    assert(cs[j] == cs0[j]);
                }
            }
            assert(sat_total(cs, i + 1) == (if sat_total(cs, i as int) + c > u64::MAX { u64::MAX as int } else { sat_total(cs, i as int) + c }));
            assert(sat_total(cs, i as int) == sat_total(cs0, i as int)) by {
                lemma_sat_total_prefix(cs0, cs, i as int);
            }
        }
        i = i + 1;
    }
    proof {
        assert(counted_by(*old(ctx), args@, true, vals, cs));
    }
    count_value(n)
}

/// Whether a value counts as blank for `COUNTBLANK`: `Blank` or the empty text.
pub open spec fn spec_blankish<N>(v: Value<N>) -> bool {
    v is Blank || (v matches Value::Text(t) && (t@.len() == 0))
}

pub fn is_blankish<N>(v: &Value<N>) -> (r: bool)
    ensures
        r == spec_blankish(*v),
{
    match v {
        Value::Blank => true,
        Value::Text(t) => t.unicode_len() == 0,
        _ => false,
    }
}

/// How many of a datum's values are blank (`Blank` or `""`).
pub fn countblank_datum<N>(v: &Value<N>) -> (r: u64)
    ensures
        !(v is Array) ==> r == (if spec_blankish(*v) { 1u64 } else { 0u64 }),
{
    match v {
        Value::Array(_, cells) => {
            let mut n: u64 = 0;
            let mut i: usize = 0;
            while i < cells.len()
                invariant
                    i <= cells.len(),
                decreases cells.len() - i,
            {
                if is_blankish(&cells[i]) {
                    n = n.saturating_add(1);
                }
                i = i + 1;
            }
            n
        },
        other => if is_blankish(other) { 1 } else { 0 },
    }
}

/// What [`countblank`] is stated to give, for a context `ctx` and arguments `args`.
pub open spec fn countblank_gives<'r, N: Number, R: Resolver<N>>(ctx: EvalCtx<'r, R>, args: Seq<Expr<N>>, r: Value<N>) -> bool {
    &&& r is Number
    &&& room(ctx) ==> match args[0] {
        Expr::Lit(Value::Array(_, _)) => true,
        Expr::Lit(v) => r == Value::<N>::Number(N::spec_from_int(if spec_blankish(v) { 1 } else { 0 })),
        _ => true,
    }
}

/// `COUNTBLANK(range)` — how many cells are empty: a `Blank` or an empty string. Never propagates
/// an error.
pub fn countblank<N: Number, R: Resolver<N>>(ctx: &mut EvalCtx<R>, args: &[Expr<N>]) -> (r: Value<N>)
    requires
        args.len() == 1,
    ensures
        restored(*old(ctx), *final(ctx)),
        r is Number,
        room(*old(ctx)) ==> match args[0] {
            Expr::Lit(Value::Array(_, _)) => true,
            Expr::Lit(v) => r == Value::<N>::Number(N::spec_from_int(if spec_blankish(v) { 1 } else { 0 })),
            _ => true,
        },
    decreases args_size(args@), 7nat,
{
    proof {
        lemma_arg_size(args@, 0);
    }
    let v = ctx.eval(&args[0]);
    count_value(countblank_datum(&v))
}

/// What [`product`] is stated to give, for a context `ctx` and arguments `args`.
pub open spec fn product_gives<'r, N: Number, R: Resolver<N>>(ctx: EvalCtx<'r, R>, args: Seq<Expr<N>>, r: Value<N>) -> bool {
    &&& r is Number || r is Error
    &&& room(ctx) && all_lit_nums(args, 0, args.len() as int)
        ==> r == spec_product(lit_nums(args, 0, args.len() as int))
}

/// What [`product`] is stated to give for the values its arguments evaluate to in `ctx`.
pub open spec fn product_reads<'r, N: Number, R: Resolver<N>>(ctx: EvalCtx<'r, R>, args: Seq<Expr<N>>, r: Value<N>) -> bool {
    &&& exists|res: Result<Seq<N>, ErrKind>| #[trigger] collected(ctx, args, 0, args.len() as int, res) && r == match res {
        Err(k) => Value::<N>::Error(k),
        Ok(s) => spec_product(s),
    }
}

/// `PRODUCT(a, b, …)` — multiply the numbers; with no numeric datum the product is `0`.
pub fn product<N: Number, R: Resolver<N>>(ctx: &mut EvalCtx<R>, args: &[Expr<N>]) -> (r: Value<N>)
    requires
        args.len() >= 1,
    ensures
        restored(*old(ctx), *final(ctx)),
        r is Number || r is Error,
        room(*old(ctx)) && all_lit_nums(args@, 0, args@.len() as int)
            ==> r == spec_product(lit_nums(args@, 0, args@.len() as int)),
        exists|res: Result<Seq<N>, ErrKind>| #[trigger] collected(*old(ctx), args@, 0, args@.len() as int, res) && r == match res {
            Err(k) => Value::<N>::Error(k),
            Ok(s) => spec_product(s),
        },
    decreases args_size(args@), 7nat,
{
    match collect_numbers(ctx, args) {
        Err(k) => Value::Error(k),
        Ok(nums) => product_of(&nums),
    }
}

/// The shape and cells of a well-formed literal array argument without nested arrays.
pub open spec fn lit_block<N>(e: Expr<N>) -> Option<(Shape, Seq<Value<N>>)> {
    match e {
        Expr::Lit(Value::Array(sh, c)) => if c@.len() == sh.rows * sh.cols && flat_cells(c@) { Some((sh, c@)) } else { None },
        _ => None,
    }
}

/// The shape of a literal array argument (see [`lit_block`]).
pub open spec fn lit_shape<N>(e: Expr<N>) -> Shape {
    match lit_block(e) {
        Some((sh, _)) => sh,
        None => Shape { rows: 0, cols: 0 },
    }
}

/// The cells of a literal array argument (see [`lit_block`]).
pub open spec fn lit_cells<N>(e: Expr<N>) -> Seq<Value<N>> {
    match lit_block(e) {
        Some((_, c)) => c,
        None => Seq::empty(),
    }
}

/// Every argument is such a literal array.
pub open spec fn all_lit_blocks<N>(args: Seq<Expr<N>>) -> bool {
    forall|i: int| 0 <= i < args.len() ==> (#[trigger] lit_block(args[i])) is Some
}

/// The running products of `SUMPRODUCT` after the first `k` literal array arguments: each argument
/// must have the first one's shape (else `#VALUE!`), its first error propagates, and otherwise
/// every product is [`scaled`] by the cell at its position.
pub open spec fn sumproduct_state<N: Number>(args: Seq<Expr<N>>, k: int) -> Result<Seq<N>, ErrKind>
    decreases k,
{
    if k <= 0 {
        Ok(Seq::<N>::empty())
    } else {
        let sh = lit_shape(args[k - 1]);
        let c = lit_cells(args[k - 1]);
        let prev = if k == 1 {
            Ok(Seq::new(c.len(), |j: int| N::spec_from_int(1)))
        } else {
            match sumproduct_state(args, k - 1) {
                Err(e) => Err(e),
                Ok(p) => if sh.rows != lit_shape(args[0]).rows || sh.cols != lit_shape(args[0]).cols {
                    Err(ErrKind::Value)
                } else {
                    Ok(p)
                },
            }
        };
        match prev {
            Err(e) => Err(e),
            Ok(p) => match error_before(c, c.len() as int) {
                Some(e) => Err(e),
                None => Ok(Seq::new(p.len(), |j: int| scaled(p[j], c[j]))),
            },
        }
    }
}

/// Once the products of a prefix fail, every longer prefix fails the same way.
proof fn lemma_sumproduct_err<N: Number>(args: Seq<Expr<N>>, i: int, n: int)
    requires
        1 <= i <= n,
        sumproduct_state(args, i) is Err,
    ensures
        sumproduct_state(args, n) == sumproduct_state(args, i),
    decreases n - i,
{
    if i < n {
        lemma_sumproduct_err(args, i, n - 1);
    }
}

/// `SUMPRODUCT(array1, …)` — multiply the arrays element for element, then sum. Every argument
/// must share one shape (a mismatch is `#VALUE!`); a non-numeric cell contributes `0`; an error
/// anywhere propagates.
#[verifier::loop_isolation(false)]
/// What [`sumproduct`] is stated to give, for a context `ctx` and arguments `args`.
pub open spec fn sumproduct_gives<'r, N: Number, R: Resolver<N>>(ctx: EvalCtx<'r, R>, args: Seq<Expr<N>>, r: Value<N>) -> bool {
    &&& r is Number || r is Error
    &&& room(ctx) && all_lit_blocks(args) ==> r == match sumproduct_state(args, args.len() as int) {
        Err(e) => Value::<N>::Error(e),
        Ok(p) => spec_finite_or_num(spec_sum(p)),
    }
}

pub fn sumproduct<N: Number, R: Resolver<N>>(ctx: &mut EvalCtx<R>, args: &[Expr<N>]) -> (r: Value<N>)
    requires
        args.len() >= 1,
    ensures
        restored(*old(ctx), *final(ctx)),
        r is Number || r is Error,
        room(*old(ctx)) && all_lit_blocks(args@) ==> r == match sumproduct_state(args@, args@.len() as int) {
            Err(e) => Value::<N>::Error(e),
            Ok(p) => spec_finite_or_num(spec_sum(p)),
        },
    decreases args_size(args@), 7nat,
{
    let mut base: Option<(u32, u32)> = None;
    let mut prod: Vec<N> = Vec::new();
    let mut i: usize = 0;
    let ghost lits = room(*old(ctx)) && all_lit_blocks(args@);
    let ghost sh0 = lit_shape(args@[0]);
    while i < args.len()
        invariant
            i <= args.len(),
            restored(*old(ctx), *ctx),
            lits == (room(*old(ctx)) && all_lit_blocks(args@)),
            sh0 == lit_shape(args@[0]),
            lits ==> (i == 0 ==> base is None),
            lits && i > 0 ==> base == Some((sh0.rows, sh0.cols)) && prod@.len() == sh0.rows * sh0.cols
                && sumproduct_state(args@, i as int) == Ok::<Seq<N>, ErrKind>(prod@),
        decreases args.len() - i,
    {
        proof {
            lemma_arg_size(args@, i as int);
        }
        let (rows, cols, cells) = match block(ctx, &args[i]) {
            Ok(t) => t,
            Err(k) => {
                return Value::Error(k);
            },
        };
        let ghost c = lit_cells(args@[i as int]);
        proof {
            if lits {
                assert(lit_block(args@[i as int]) is Some);
                lemma_same_flat(cells@, c);
            }
        }
        let ghost before = prod@;
        match base {
            None => {
                base = Some((rows, cols));
                prod = Vec::new();
                let mut j: usize = 0;
                while j < cells.len()
                    invariant
                        j <= cells.len(),
                        prod@ == Seq::new(j as nat, |q: int| N::spec_from_int(1)),
                    decreases cells.len() - j,
                {
                    prod.push(N::from_int(1));
                    proof {
                        assert(prod@ =~= Seq::new((j + 1) as nat, |q: int| N::spec_from_int(1)));
                    }
                    j = j + 1;
                }
            },
            Some((br, bc)) => {
                if br != rows || bc != cols {
                    proof {
                        if lits {
                            assert(sumproduct_state(args@, i + 1) == Err::<Seq<N>, ErrKind>(ErrKind::Value));
                            lemma_sumproduct_err(args@, i + 1, args@.len() as int);
                        }
                    }
                    return Value::Error(ErrKind::Value);
                }
            },
        }
        let ghost scaled_from = prod@;
        if let Some(k) = scale_products(&mut prod, &cells) {
            proof {
                if lits {
                    assert(sumproduct_state(args@, i + 1) == Err::<Seq<N>, ErrKind>(k));
                    lemma_sumproduct_err(args@, i + 1, args@.len() as int);
                }
            }
            return Value::Error(k);
        }
        proof {
            if lits {
                assert(prod@ =~= Seq::new(scaled_from.len(), |j: int| scaled(scaled_from[j], c[j])));
            }
        }
        i = i + 1;
    }
    finite_or_num(sum_of(&prod))
}

} // verus!
